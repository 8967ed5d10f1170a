//! Ordered registries keyed by identifier, and the wire codec of the
//! `RegistryData` packet body.
//!
//! Insertion order is preserved so that wire indexes match the canonical
//! protocol ids assigned by the data generator.
use vstd::prelude::*;
use indexmap::IndexMap;
use crate::identifier::Identifier;

pub mod codec;
pub mod vanilla;

verus! {

#[verifier::external_type_specification]
#[verifier::external_body]
#[verifier::reject_recursive_types(K)]
#[verifier::reject_recursive_types(V)]
#[verifier::reject_recursive_types(S)]
pub struct ExIndexMap<K, V, S>(IndexMap<K, V, S>);

/// An identifier as the registry sees it: its namespace and its path.
pub type IdKey = (Seq<char>, Seq<char>);

/// A map from identifiers to wire indexes.
pub type IdIndex = IndexMap<Identifier, usize>;

/// What an identifier-to-index map holds: each key's value.
pub uninterp spec fn id_index(m: IdIndex) -> Map<IdKey, usize>;

/// `IndexMap::new`: an empty map.
#[verifier::external_body]
fn id_map_new() -> (fresh: IdIndex)
    ensures
        id_index(fresh).dom() == Set::<IdKey>::empty(),
{
    IndexMap::new()
}

/// `IndexMap::insert`: afterwards `k` maps to `v`, whether or not it was
/// there before, and no other key changes. Keys are told apart by
/// `Identifier`'s `==`, which compares namespace and path, and hashed by the
/// derived `Hash` over the same two strings, so two keys are one key exactly
/// when their views are equal.
#[verifier::external_body]
fn id_map_insert(m: &mut IdIndex, k: Identifier, v: usize)
    ensures
        id_index(*final(m)) == id_index(*old(m)).insert(k@, v),
{
    m.insert(k, v);
}

/// `IndexMap::get`: the value of `k`, if `k` is a key.
#[verifier::external_body]
fn id_map_get(m: &IdIndex, k: &Identifier) -> (r: Option<usize>)
    ensures
        r == (if id_index(*m).dom().contains(k@) {
            Some(id_index(*m)[k@])
        } else {
            None
        }),
{
    m.get(k).copied()
}

/// The last position at which `id` stands in `ids`.
pub open spec fn last_index(ids: Seq<IdKey>, id: IdKey) -> Option<nat>
    decreases ids.len(),
{
    if ids.len() == 0 {
        None
    } else if ids.last() == id {
        Some((ids.len() - 1) as nat)
    } else {
        last_index(ids.drop_last(), id)
    }
}

/// The index each identifier of `ids` gets: its last position.
pub open spec fn index_map_of(ids: Seq<IdKey>) -> Map<IdKey, usize> {
    Map::new(|k: IdKey| last_index(ids, k) is Some, |k: IdKey| last_index(ids, k)->0 as usize)
}

/// The identifiers of some entries, in order.
pub open spec fn ids_of<T>(entries: Seq<(Identifier, T)>) -> Seq<IdKey> {
    entries.map_values(|e: (Identifier, T)| e.0@)
}

/// A position found by `last_index` holds the identifier, and nothing after
/// it does.
pub proof fn lemma_last_index(ids: Seq<IdKey>, id: IdKey)
    ensures
        last_index(ids, id) matches Some(i) ==> i < ids.len() && ids[i as int] == id && forall|
            j: int,
        |
            i < j < ids.len() ==> ids[j] != id,
        last_index(ids, id) is None ==> forall|j: int| 0 <= j < ids.len() ==> ids[j] != id,
    decreases ids.len(),
{
    if ids.len() > 0 && ids.last() != id {
        let d = ids.drop_last();
        lemma_last_index(d, id);
        assert forall|j: int| 0 <= j < ids.len() - 1 implies ids[j] == d[j] by {}
    }
}

/// Appending `id` makes its last position the new one and moves no other.
proof fn lemma_last_index_push(ids: Seq<IdKey>, id: IdKey)
    ensures
        index_map_of(ids.push(id)) == index_map_of(ids).insert(id, ids.len() as usize),
{
    assert forall|k: IdKey| k != id implies last_index(ids.push(id), k) == last_index(ids, k) by {
        assert(ids.push(id).drop_last() =~= ids);
    }
    assert(index_map_of(ids.push(id)) =~= index_map_of(ids).insert(id, ids.len() as usize));
}

/// An ordered registry keyed by entry identifier, with a payload per entry.
#[derive(Debug)]
pub struct Registry<T> {
    pub entries: Vec<(Identifier, T)>,
    pub by_id: IdIndex,
}

impl<T> Registry<T> {
    /// The identifiers of the entries, in wire order.
    pub open spec fn ids(&self) -> Seq<IdKey> {
        ids_of(self.entries@)
    }

    /// `by_id` gives each identifier its last position in `entries`.
    pub open spec fn wf(&self) -> bool {
        id_index(self.by_id) == index_map_of(self.ids())
    }

    /// An empty registry.
    pub fn new() -> (r: Self)
        ensures
            r.wf(),
            r.entries@ == Seq::<(Identifier, T)>::empty(),
    {
        let r = Registry { entries: Vec::new(), by_id: id_map_new() };
        assert(index_map_of(r.ids()) =~= id_index(r.by_id));
        r
    }

    /// Appends an entry and returns the wire index assigned to it: the
    /// number of entries before it.
    pub fn push(&mut self, id: Identifier, value: T) -> (idx: usize)
        requires
            old(self).wf(),
            old(self).entries@.len() < usize::MAX,
        ensures
            final(self).wf(),
            idx == old(self).entries@.len(),
            final(self).entries@ == old(self).entries@.push((id, value)),
    {
        let idx = self.entries.len();
        let ghost ids0 = self.ids();
        let key = id.clone();
        id_map_insert(&mut self.by_id, key, idx);
        self.entries.push((id, value));
        proof {
            assert(self.ids() =~= ids0.push(id@));
            lemma_last_index_push(ids0, id@);
        }
        idx
    }

    /// The number of entries.
    pub fn len(&self) -> (n: usize)
        ensures
            n == self.entries@.len(),
    {
        self.entries.len()
    }

    /// Whether the registry has no entry.
    pub fn is_empty(&self) -> (b: bool)
        ensures
            b <==> self.entries@.len() == 0,
    {
        self.entries.len() == 0
    }

    /// Every entry's identifier and payload, in wire order.
    pub fn iter(&self) -> (items: Vec<(&Identifier, &T)>)
        ensures
            items@.len() == self.entries@.len(),
            forall|i: int|
                0 <= i < items@.len() ==> *(#[trigger] items@[i]).0 == self.entries@[i].0
                    && *items@[i].1 == self.entries@[i].1,
    {
        let mut items: Vec<(&Identifier, &T)> = Vec::new();
        let mut i: usize = 0;
        while i < self.entries.len()
            invariant
                i <= self.entries@.len(),
                items@.len() == i,
                forall|j: int|
                    0 <= j < i ==> *(#[trigger] items@[j]).0 == self.entries@[j].0 && *items@[j].1
                        == self.entries@[j].1,
            decreases self.entries@.len() - i,
        {
            let e = &self.entries[i];
            items.push((&e.0, &e.1));
            i = i + 1;
        }
        items
    }

    /// The payload of the entry `id` names (its last entry, if pushed twice).
    pub fn get(&self, id: &Identifier) -> (r: Option<&T>)
        requires
            self.wf(),
        ensures
            r == (match last_index(self.ids(), id@) {
                Some(i) => Some(&self.entries@[i as int].1),
                None => None,
            }),
    {
        proof {
            lemma_last_index(self.ids(), id@);
        }
        let n = self.entries.len();
        match id_map_get(&self.by_id, id) {
            Some(idx) => {
                proof {
                    let i = last_index(self.ids(), id@)->0;
                    assert(index_map_of(self.ids()).dom().contains(id@));
                    assert(i < n);
                    assert(idx == i as usize);
                    assert(idx as int == i);
                }
                Some(&self.entries[idx].1)
            },
            None => {
                proof {
                    assert(!index_map_of(self.ids()).dom().contains(id@));
                }
                None
            },
        }
    }

    /// The wire index of `id`.
    pub fn index_of(&self, id: &Identifier) -> (r: Option<usize>)
        requires
            self.wf(),
        ensures
            r == (match last_index(self.ids(), id@) {
                Some(i) => Some(i as usize),
                None => None,
            }),
    {
        proof {
            lemma_last_index(self.ids(), id@);
            assert(id_index(self.by_id).dom().contains(id@) <==> index_map_of(self.ids()).dom().contains(id@));
        }
        id_map_get(&self.by_id, id)
    }

    /// The entry at wire index `wire`.
    pub fn get_by_index(&self, wire: usize) -> (r: Option<(&Identifier, &T)>)
        ensures
            r matches Some(p) ==> wire < self.entries@.len() && *p.0 == self.entries@[wire as int].0
                && *p.1 == self.entries@[wire as int].1,
            r is None <==> wire >= self.entries@.len(),
    {
        if wire < self.entries.len() {
            let e = &self.entries[wire];
            Some((&e.0, &e.1))
        } else {
            None
        }
    }
}

impl<T> Default for Registry<T> {
    fn default() -> (r: Self)
        ensures
            r.wf(),
            r.entries@ == Seq::<(Identifier, T)>::empty(),
    {
        Self::new()
    }
}

/// The wire index of an identifier leads back to that identifier: where
/// `index_of(id)` gives `i`, `get_by_index(i)` gives an entry named `id`.
pub proof fn lemma_index_of_get_by_index<T>(r: Registry<T>, id: IdKey)
    requires
        r.wf(),
    ensures
        last_index(r.ids(), id) matches Some(i) ==> i < r.entries@.len() && r.entries@[i as int].0@
            == id,
{
    lemma_last_index(r.ids(), id);
}

/// Pushing an entry makes its identifier resolve to it: its index is the
/// one `push` returned, and its payload the one pushed.
pub proof fn lemma_push_then_lookup<T>(ids: Seq<IdKey>, id: IdKey)
    ensures
        last_index(ids.push(id), id) == Some(ids.len()),
{
}

} // verus!
