//! Lookups in tables keyed by resource location, kept in the order the
//! data generator lists them.
use vstd::prelude::*;
use crate::strings::str_eq;

verus! {

/// The keys of a table, in order.
pub open spec fn keys_of<T>(s: Seq<(String, T)>) -> Seq<Seq<char>> {
    s.map_values(|e: (String, T)| e.0@)
}

/// The position of the first occurrence of `key`.
pub open spec fn first_index(keys: Seq<Seq<char>>, key: Seq<char>) -> Option<int>
    decreases keys.len(),
{
    if keys.len() == 0 {
        None
    } else if keys.last() == key && first_index(keys.drop_last(), key) is None {
        Some(keys.len() - 1)
    } else {
        first_index(keys.drop_last(), key)
    }
}

/// A position `first_index` finds holds the key and no earlier one does;
/// where it finds none, no position holds the key.
pub proof fn lemma_first_index(keys: Seq<Seq<char>>, key: Seq<char>)
    ensures
        first_index(keys, key) matches Some(i) ==> 0 <= i < keys.len() && keys[i] == key && forall|
            j: int,
        |
            0 <= j < i ==> keys[j] != key,
        first_index(keys, key) is None ==> forall|j: int| 0 <= j < keys.len() ==> keys[j] != key,
    decreases keys.len(),
{
    if keys.len() > 0 {
        let d = keys.drop_last();
        lemma_first_index(d, key);
        assert forall|j: int| 0 <= j < keys.len() - 1 implies keys[j] == d[j] by {}
    }
}

/// The position of the first row keyed `key`.
pub fn index_of_key<T>(rows: &Vec<(String, T)>, key: &str) -> (r: Option<usize>)
    ensures
        match r {
            Some(i) => first_index(keys_of(rows@), key@) == Some(i as int) && i < rows@.len(),
            None => first_index(keys_of(rows@), key@) is None,
        },
{
    let ghost keys = keys_of(rows@);
    let mut i: usize = 0;
    while i < rows.len()
        invariant
            i <= rows@.len(),
            keys == keys_of(rows@),
            forall|j: int| 0 <= j < i ==> keys[j] != key@,
        decreases rows@.len() - i,
    {
        if str_eq(rows[i].0.as_str(), key) {
            proof {
                lemma_first_index(keys, key@);
                if first_index(keys, key@) is None {
                    assert(keys[i as int] == key@);
                } else {
                    let k = first_index(keys, key@)->0;
                    assert(!(k < i));
                    assert(!(i < k));
                }
            }
            return Some(i);
        }
        i = i + 1;
    }
    proof {
        lemma_first_index(keys, key@);
        if first_index(keys, key@) is Some {
            let k = first_index(keys, key@)->0;
            assert(keys[k] == key@);
        }
    }
    None
}

} // verus!
