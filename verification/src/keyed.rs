//! Lists of values under text keys, read as maps: a key that is entered
//! again gets the later value.

use vstd::prelude::*;
use crate::text::same_text;

verus! {

/// A value under a key.
#[derive(Debug)]
pub struct Keyed<V> {
    pub key: String,
    pub value: V,
}

/// The map that a list of keyed values stands for.
pub open spec fn keyed_map<V>(entries: Seq<Keyed<V>>) -> Map<Seq<char>, V>
    decreases entries.len(),
{
    if entries.len() == 0 {
        Map::empty()
    } else {
        keyed_map(entries.drop_last()).insert(entries.last().key@, entries.last().value)
    }
}

/// Entering a value adds it to the map under its key.
pub proof fn lemma_keyed_push<V>(entries: Seq<Keyed<V>>, entry: Keyed<V>)
    ensures
        keyed_map(entries.push(entry)) == keyed_map(entries).insert(entry.key@, entry.value),
{
    assert(entries.push(entry).drop_last() == entries);
}

/// The position of the entry that holds the value of `key`: the last one
/// under that key.
pub fn keyed_find<V>(entries: &Vec<Keyed<V>>, key: &str) -> (r: Option<usize>)
    ensures
        match r {
            Some(i) => i < entries.len() && entries@[i as int].key@ == key@ && keyed_map(
                entries@,
            ).contains_key(key@) && keyed_map(entries@)[key@] == entries@[i as int].value,
            None => !keyed_map(entries@).contains_key(key@),
        },
{
    let mut i: usize = entries.len();
    assert(entries@.take(i as int) == entries@);
    while i > 0
        invariant
            i <= entries.len(),
            keyed_map(entries@).contains_key(key@) == keyed_map(entries@.take(i as int)).contains_key(
                key@,
            ),
            keyed_map(entries@).contains_key(key@) ==> keyed_map(entries@)[key@] == keyed_map(
                entries@.take(i as int),
            )[key@],
        decreases i,
    {
        assert(entries@.take(i as int).drop_last() == entries@.take(i - 1));
        if same_text(entries[i - 1].key.as_str(), key) {
            return Some(i - 1);
        }
        i -= 1;
    }
    None
}

/// A key of the map is the key of an entry.
pub proof fn lemma_keyed_contains<V>(entries: Seq<Keyed<V>>, key: Seq<char>)
    ensures
        keyed_map(entries).contains_key(key) <==> exists|i: int|
            0 <= i < entries.len() && (#[trigger] entries[i]).key@ == key,
    decreases entries.len(),
{
    if entries.len() > 0 {
        lemma_keyed_contains(entries.drop_last(), key);
        if keyed_map(entries).contains_key(key) {
            if entries.last().key@ == key {
                assert(entries[entries.len() - 1].key@ == key);
            } else {
                let i = choose|i: int|
                    0 <= i < entries.drop_last().len() && (#[trigger] entries.drop_last()[i]).key@
                        == key;
                assert(entries[i].key@ == key);
            }
        }
        if exists|i: int| 0 <= i < entries.len() && (#[trigger] entries[i]).key@ == key {
            let i = choose|i: int| 0 <= i < entries.len() && (#[trigger] entries[i]).key@ == key;
            if i < entries.len() - 1 {
                assert(entries.drop_last()[i].key@ == key);
            }
        }
    }
}

} // verus!
