//! The boundary to the code the cache is built on: `bytes` for the stored
//! values, `linked-hash-map` for the insertion-ordered mapping, and the
//! comparison of a `String` with a `str` from the standard library.
//!
//! Nothing in this module is proved. Each item states, in terms of plain
//! sequences, what the function it stands for does.

use crate::model::has_key;
use bytes::Bytes;
use linked_hash_map::LinkedHashMap;
use vstd::prelude::*;

verus! {

/// `bytes::Bytes`, a handle to a run of bytes. Nothing of its inside is
/// known here; `bytes_content` stands for the bytes.
#[verifier::external_type_specification]
#[verifier::external_body]
pub struct ExBytes(bytes::Bytes);

/// `linked_hash_map::LinkedHashMap`, a hash map that keeps its entries in
/// the order of their insertion. Nothing of its inside is known here;
/// `map_entries` stands for the entries.
#[verifier::external_type_specification]
#[verifier::external_body]
#[verifier::reject_recursive_types(K)]
#[verifier::reject_recursive_types(V)]
#[verifier::reject_recursive_types(S)]
pub struct ExLinkedHashMap<K, V, S>(linked_hash_map::LinkedHashMap<K, V, S>);

/// The bytes that a `Bytes` handle gives access to, in order.
pub uninterp spec fn bytes_content(b: Bytes) -> Seq<u8>;

/// The key-value pairs that a map holds, oldest insertion first, each key by
/// its characters and each value by its bytes.
pub uninterp spec fn map_entries(m: LinkedHashMap<String, Bytes>) -> Seq<(Seq<char>, Seq<u8>)>;

/// `Bytes::len` returns the number of bytes the handle gives access to.
pub assume_specification[ Bytes::len ](b: &Bytes) -> (n: usize)
    ensures
        n == bytes_content(*b).len(),
;

/// `LinkedHashMap::new` makes a map without entries.
#[verifier::external_body]
pub(crate) fn map_new() -> (m: LinkedHashMap<String, Bytes>)
    ensures
        map_entries(m) == Seq::<(Seq<char>, Seq<u8>)>::empty(),
{
    LinkedHashMap::new()
}

/// `LinkedHashMap::pop_front` takes out the oldest entry and returns it, or
/// returns nothing and leaves the map alone when it is empty.
#[verifier::external_body]
pub(crate) fn map_pop_front(m: &mut LinkedHashMap<String, Bytes>) -> (r: Option<(String, Bytes)>)
    ensures
        match r {
            Some((k, v)) => {
                &&& map_entries(*old(m)).len() > 0
                &&& k@ == map_entries(*old(m))[0].0
                &&& bytes_content(v) == map_entries(*old(m))[0].1
                &&& map_entries(*final(m)) == map_entries(*old(m)).drop_first()
            },
            None => {
                &&& map_entries(*old(m)).len() == 0
                &&& map_entries(*final(m)) == map_entries(*old(m))
            },
        },
{
    m.pop_front()
}

/// `LinkedHashMap::insert` binds the key to the value as the newest entry. An
/// entry that the key had before is taken out of its place, and its value is
/// returned.
#[verifier::external_body]
pub(crate) fn map_insert(m: &mut LinkedHashMap<String, Bytes>, key: String, value: Bytes) -> (r:
    Option<Bytes>)
    ensures
        match r {
            Some(prev) => exists|i: int|
                {
                    &&& 0 <= i < map_entries(*old(m)).len()
                    &&& (#[trigger] map_entries(*old(m))[i]).0 == key@
                    &&& map_entries(*old(m))[i].1 == bytes_content(prev)
                    &&& map_entries(*final(m)) == map_entries(*old(m)).remove(i).push(
                        (key@, bytes_content(value)),
                    )
                },
            None => {
                &&& !has_key(map_entries(*old(m)), key@)
                &&& map_entries(*final(m)) == map_entries(*old(m)).push(
                    (key@, bytes_content(value)),
                )
            },
        },
{
    m.insert(key, value)
}

/// `LinkedHashMap::contains_key` tells whether the map has an entry for the
/// key.
#[verifier::external_body]
pub(crate) fn map_contains_key(m: &LinkedHashMap<String, Bytes>, key: &str) -> (r: bool)
    ensures
        r == has_key(map_entries(*m), key@),
{
    m.contains_key(key)
}

/// `LinkedHashMap::get` returns the value of the entry for the key, or
/// nothing when the map has no such entry.
#[verifier::external_body]
pub(crate) fn map_get<'a>(m: &'a LinkedHashMap<String, Bytes>, key: &str) -> (r: Option<&'a Bytes>)
    ensures
        match r {
            Some(v) => exists|i: int|
                {
                    &&& 0 <= i < map_entries(*m).len()
                    &&& (#[trigger] map_entries(*m)[i]).0 == key@
                    &&& map_entries(*m)[i].1 == bytes_content(*v)
                },
            None => !has_key(map_entries(*m), key@),
        },
{
    m.get(key)
}

/// `String == str` holds exactly when both have the same characters.
pub assume_specification[ <String as PartialEq<str>>::eq ](s: &String, other: &str) -> (r: bool)
    ensures
        r == (s@ == other@),
;

} // verus!
