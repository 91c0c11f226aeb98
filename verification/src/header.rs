//! The header of a document: names with expressions, in the order of their first insertion.
use crate::ast::SurfaceNode;
use crate::model::{NodeV, Text};
use indexmap::IndexMap;
use std::sync::Arc;
use vstd::prelude::*;

verus! {

#[verifier::external_type_specification]
#[verifier::external_body]
#[verifier::reject_recursive_types(K)]
#[verifier::reject_recursive_types(V)]
#[verifier::reject_recursive_types(S)]
pub struct ExIndexMap<K, V, S>(IndexMap<K, V, S>);

/// The entries of a header map, in iteration order.
pub uninterp spec fn header_entries(h: IndexMap<String, Arc<SurfaceNode>>) -> Seq<(Text, NodeV)>;

/// The place of a key among the entries, if it is there.
pub open spec fn key_index<V>(entries: Seq<(Text, V)>, key: Text) -> Option<int>
    decreases entries.len(),
{
    if entries.len() == 0 {
        None
    } else if entries.last().0 == key {
        Some(entries.len() - 1)
    } else {
        key_index(entries.drop_last(), key)
    }
}

/// The entries after a value is put under a key: a present key keeps its place, a new one comes
/// last.
pub open spec fn entry_put<V>(entries: Seq<(Text, V)>, key: Text, value: V) -> Seq<(Text, V)> {
    match key_index(entries, key) {
        Some(i) => entries.update(i, (key, value)),
        None => entries.push((key, value)),
    }
}

/// No two entries have the same key.
pub open spec fn keys_unique<V>(entries: Seq<(Text, V)>) -> bool {
    forall|i: int, j: int|
        0 <= i < j < entries.len() ==> (#[trigger] entries[i]).0 != (#[trigger] entries[j]).0
}

/// The place of a key is one where the key stands; a key without a place stands nowhere.
pub proof fn key_index_finds<V>(entries: Seq<(Text, V)>, key: Text)
    ensures
        match key_index(entries, key) {
            Some(i) => 0 <= i < entries.len() && entries[i].0 == key,
            None => forall|i: int| 0 <= i < entries.len() ==> (#[trigger] entries[i]).0 != key,
        },
    decreases entries.len(),
{
    if entries.len() > 0 && entries.last().0 != key {
        key_index_finds(entries.drop_last(), key);
        assert forall|i: int|
            key_index(entries, key) is None && 0 <= i < entries.len() implies (
        #[trigger] entries[i]).0 != key by {
            if i < entries.len() - 1 {
                assert(entries[i] == entries.drop_last()[i]);
            }
        }
    }
}

/// Putting a value under a key keeps the keys apart, makes the value the one of the key, and leaves
/// every other entry where it is.
pub proof fn put_reads_back<V>(entries: Seq<(Text, V)>, key: Text, value: V)
    requires
        keys_unique(entries),
    ensures
        keys_unique(entry_put(entries, key, value)),
        entry_put(entries, key, value).contains((key, value)),
        key_index(entry_put(entries, key, value), key) matches Some(i) && entry_put(
            entries,
            key,
            value,
        )[i].1 == value,
        forall|i: int|
            0 <= i < entries.len() && entries[i].0 != key ==> #[trigger] entry_put(
                entries,
                key,
                value,
            )[i] == entries[i],
{
    let after = entry_put(entries, key, value);
    key_index_finds(entries, key);
    key_index_finds(after, key);
    let at = match key_index(entries, key) {
        Some(i) => i,
        None => entries.len() as int,
    };
    assert(after[at] == (key, value));
}

/// `IndexMap::new` makes a map without entries.
#[verifier::external_body]
pub(crate) fn new_header() -> (h: IndexMap<String, Arc<SurfaceNode>>)
    ensures
        header_entries(h) == Seq::<(Text, NodeV)>::empty(),
{
    IndexMap::new()
}

/// `IndexMap::insert` replaces the value of a key that is present, in its place, and otherwise
/// appends the key with its value.
#[verifier::external_body]
pub(crate) fn header_insert(
    h: &mut IndexMap<String, Arc<SurfaceNode>>,
    key: String,
    value: Arc<SurfaceNode>,
)
    ensures
        header_entries(*final(h)) == entry_put(
            header_entries(*old(h)),
            key@,
            value.deep_view(),
        ),
{
    h.insert(key, value);
}

} // verus!
