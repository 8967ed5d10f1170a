//! The server-wide player registry: every play-phase player by UUID, with
//! the name, gamemode, tab-list visibility and latency the player list
//! shows.
use vstd::prelude::*;
use std::collections::HashMap;
use crate::uuid::{Uuid, uuid_value};

verus! {

broadcast use vstd::std_specs::hash::group_hash_axioms;

/// The gamemode the server assigns on entering play (survival).
pub const DEFAULT_GAMEMODE: i32 = 1;

/// One player as the registry keeps it.
#[derive(Debug)]
pub struct PlayerRecord {
    pub uuid: Uuid,
    pub username: String,
    pub gamemode: i32,
    /// Whether the player shows in the tab list.
    pub listed: bool,
    /// Last measured latency in milliseconds.
    pub latency: i32,
    pub entity_id: i32,
}

/// The key a UUID is filed under.
pub open spec fn key_of(u: Uuid) -> u128 {
    uuid_value(u) as u128
}

/// Two records that hold the same values.
pub open spec fn same_record(a: PlayerRecord, b: PlayerRecord) -> bool {
    &&& a.uuid == b.uuid
    &&& a.username@ == b.username@
    &&& a.gamemode == b.gamemode
    &&& a.listed == b.listed
    &&& a.latency == b.latency
    &&& a.entity_id == b.entity_id
}

impl Clone for PlayerRecord {
    fn clone(&self) -> (r: Self)
        ensures
            same_record(r, *self),
    {
        PlayerRecord {
            uuid: self.uuid,
            username: self.username.clone(),
            gamemode: self.gamemode,
            listed: self.listed,
            latency: self.latency,
            entity_id: self.entity_id,
        }
    }
}

impl PlayerRecord {
    /// A freshly admitted player: default gamemode, listed, no latency yet.
    pub fn new(uuid: Uuid, username: String, entity_id: i32) -> (r: Self)
        ensures
            r.uuid == uuid,
            r.username == username,
            r.gamemode == DEFAULT_GAMEMODE,
            r.listed,
            r.latency == 0,
            r.entity_id == entity_id,
    {
        PlayerRecord { uuid, username, gamemode: DEFAULT_GAMEMODE, listed: true, latency: 0, entity_id }
    }
}

/// The players online, each filed under its UUID.
#[derive(Debug)]
pub struct PlayerRegistry {
    players: HashMap<u128, PlayerRecord>,
}

impl View for PlayerRegistry {
    type V = Map<u128, PlayerRecord>;

    /// Each online player's record, by the key of its UUID.
    closed spec fn view(&self) -> Map<u128, PlayerRecord> {
        self.players@
    }
}

impl PlayerRegistry {
    /// Every record is filed under its own UUID.
    pub closed spec fn wf(&self) -> bool {
        forall|k: u128| #[trigger] self.players@.contains_key(k) ==> key_of(self.players@[k].uuid) == k
    }

    /// An empty registry.
    pub fn new() -> (r: Self)
        ensures
            r.wf(),
            r@ == Map::<u128, PlayerRecord>::empty(),
    {
        PlayerRegistry { players: HashMap::new() }
    }

    /// Files `record` under its UUID, replacing and returning any record
    /// already there.
    pub fn insert(&mut self, record: PlayerRecord) -> (r: Option<PlayerRecord>)
        requires
            old(self).wf(),
        ensures
            final(self).wf(),
            final(self)@ == old(self)@.insert(key_of(record.uuid), record),
            r == (if old(self)@.contains_key(key_of(record.uuid)) {
                Some(old(self)@[key_of(record.uuid)])
            } else {
                None
            }),
    {
        let k = record.uuid.as_u128();
        self.players.insert(k, record)
    }

    /// Removes and returns the record of `uuid`.
    pub fn remove(&mut self, uuid: &Uuid) -> (r: Option<PlayerRecord>)
        requires
            old(self).wf(),
        ensures
            final(self).wf(),
            final(self)@ == old(self)@.remove(key_of(*uuid)),
            r == (if old(self)@.contains_key(key_of(*uuid)) {
                Some(old(self)@[key_of(*uuid)])
            } else {
                None
            }),
    {
        let k = uuid.as_u128();
        self.players.remove(&k)
    }

    /// The record of `uuid`.
    pub fn get(&self, uuid: &Uuid) -> (r: Option<&PlayerRecord>)
        ensures
            r == (if self@.contains_key(key_of(*uuid)) {
                Some(&self@[key_of(*uuid)])
            } else {
                None
            }),
    {
        let k = uuid.as_u128();
        self.players.get(&k)
    }

    /// Every online player's record, each once, in no particular order.
    pub fn iter(&self) -> (rs: Vec<&PlayerRecord>)
        requires
            self.wf(),
        ensures
            rs@.len() == self@.len(),
            forall|i: int|
                0 <= i < rs@.len() ==> self@.contains_key(key_of((#[trigger] rs@[i]).uuid))
                    && *rs@[i] == self@[key_of(rs@[i].uuid)],
            forall|i: int, j: int|
                0 <= i < j < rs@.len() ==> (#[trigger] rs@[i]).uuid != (#[trigger] rs@[j]).uuid,
            forall|k: u128|
                #[trigger] self@.contains_key(k) ==> exists|i: int|
                    0 <= i < rs@.len() && key_of(#[trigger] rs@[i].uuid) == k,
    {
        let mut rs: Vec<&PlayerRecord> = Vec::new();
        let ghost mut seen: Seq<u128> = Seq::empty();
        for k in it: self.players.keys()
            invariant
                self.wf(),
                rs@.len() == it.index(),
                seen.len() == it.index(),
                it.seq().len() == self@.len(),
                it.seq().no_duplicates(),
                it.seq().unref().to_set() == self@.dom(),
                forall|i: int| 0 <= i < seen.len() ==> seen[i] == *it.seq()[i],
                forall|i: int|
                    0 <= i < rs@.len() ==> key_of((#[trigger] rs@[i]).uuid) == seen[i]
                        && self@.contains_key(seen[i]) && *rs@[i] == self@[seen[i]],
        {
            proof {
                assert(it.seq().unref().contains(*k));
                seen = seen.push(*k);
            }
            match self.players.get(k) {
                Some(r) => {
                    rs.push(r);
                },
                None => {},
            }
        }
        proof {
            assert(seen.no_duplicates());
            seen.unique_seq_to_set();
            assert forall|x: u128| seen.to_set().contains(x) implies self@.dom().contains(x) by {
                let i = seen.index_of(x);
                assert(rs@.len() == seen.len());
                assert(key_of(rs@[i].uuid) == seen[i]);
                assert(self@.contains_key(seen[i]));
            }
            assert(seen.to_set().subset_of(self@.dom()));
            vstd::set_lib::lemma_subset_equality(seen.to_set(), self@.dom());
            assert forall|i: int, j: int|
                0 <= i < j < rs@.len() implies (#[trigger] rs@[i]).uuid != (#[trigger] rs@[j]).uuid by {
                assert(seen[i] != seen[j]);
            }
            assert forall|k: u128| #[trigger] self@.contains_key(k) implies exists|i: int|
                0 <= i < rs@.len() && key_of(#[trigger] rs@[i].uuid) == k by {
                assert(seen.to_set().contains(k));
                let i = seen.index_of(k);
                assert(key_of(rs@[i].uuid) == k);
            }
        }
        rs
    }

    /// The number of online players.
    pub fn len(&self) -> (n: usize)
        ensures
            n == self@.len(),
    {
        self.players.len()
    }

    /// Whether nobody is online.
    pub fn is_empty(&self) -> (b: bool)
        ensures
            b <==> self@.len() == 0,
    {
        self.players.len() == 0
    }

    /// Sets the latency of `uuid` and returns the previous one; `None`,
    /// changing nothing, when `uuid` is not online.
    pub fn update_latency(&mut self, uuid: &Uuid, latency: i32) -> (r: Option<i32>)
        requires
            old(self).wf(),
        ensures
            final(self).wf(),
            old(self)@.contains_key(key_of(*uuid)) ==> r == Some(old(self)@[key_of(*uuid)].latency)
                && final(self)@ == old(self)@.insert(
                key_of(*uuid),
                PlayerRecord { latency, ..old(self)@[key_of(*uuid)] },
            ),
            !old(self)@.contains_key(key_of(*uuid)) ==> r is None && final(self)@ == old(self)@,
    {
        let k = uuid.as_u128();
        match self.players.remove(&k) {
            Some(record) => {
                let prev = record.latency;
                let updated = PlayerRecord { latency, ..record };
                self.players.insert(k, updated);
                proof {
                    assert(self.players@ =~= old(self)@.insert(
                        key_of(*uuid),
                        PlayerRecord { latency, ..old(self)@[key_of(*uuid)] },
                    ));
                }
                Some(prev)
            },
            None => {
                proof {
                    assert(self.players@ =~= old(self)@);
                }
                None
            },
        }
    }

    /// Copies of every online player's record except the one of `skip`,
    /// each once, in no particular order.
    pub fn others(&self, skip: &Uuid) -> (rs: Vec<PlayerRecord>)
        requires
            self.wf(),
        ensures
            forall|i: int|
                0 <= i < rs@.len() ==> (#[trigger] rs@[i]).uuid != *skip && self@.contains_key(
                    key_of(rs@[i].uuid),
                ) && same_record(rs@[i], self@[key_of(rs@[i].uuid)]),
            forall|i: int, j: int|
                0 <= i < j < rs@.len() ==> (#[trigger] rs@[i]).uuid != (#[trigger] rs@[j]).uuid,
            forall|k: u128|
                #[trigger] self@.contains_key(k) && k != key_of(*skip) ==> exists|i: int|
                    0 <= i < rs@.len() && key_of(#[trigger] rs@[i].uuid) == k,
    {
        let all = self.iter();
        let mut rs: Vec<PlayerRecord> = Vec::new();
        let ghost mut picked: Seq<int> = Seq::empty();
        let mut i: usize = 0;
        while i < all.len()
            invariant
                self.wf(),
                i <= all@.len(),
                all@.len() == self@.len(),
                forall|a: int|
                    0 <= a < all@.len() ==> self@.contains_key(key_of((#[trigger] all@[a]).uuid))
                        && *all@[a] == self@[key_of(all@[a].uuid)],
                forall|a: int, b: int|
                    0 <= a < b < all@.len() ==> (#[trigger] all@[a]).uuid != (#[trigger] all@[b]).uuid,
                picked.len() == rs@.len(),
                forall|a: int|
                    0 <= a < rs@.len() ==> 0 <= #[trigger] picked[a] < i && same_record(
                        rs@[a],
                        *all@[picked[a]],
                    ) && rs@[a].uuid != *skip,
                forall|a: int, b: int| 0 <= a < b < rs@.len() ==> #[trigger] picked[a] < #[trigger] picked[b],
                forall|c: int|
                    0 <= c < i && (#[trigger] all@[c]).uuid != *skip ==> exists|a: int|
                        0 <= a < rs@.len() && #[trigger] picked[a] == c,
            decreases all@.len() - i,
        {
            let r = all[i];
            let ghost old_picked = picked;
            let ghost old_len = rs@.len();
            if r.uuid != *skip {
                rs.push(r.clone());
                proof {
                    picked = picked.push(i as int);
                    assert forall|c: int|
                        0 <= c < i + 1 && (#[trigger] all@[c]).uuid != *skip implies exists|a: int|
                            0 <= a < rs@.len() && #[trigger] picked[a] == c by {
                        if c == i {
                            assert(picked[old_len as int] == c);
                        } else {
                            let a = choose|a: int| 0 <= a < old_len && #[trigger] old_picked[a] == c;
                            assert(picked[a] == c);
                        }
                    }
                }
            } else {
                proof {
                    assert forall|c: int|
                        0 <= c < i + 1 && (#[trigger] all@[c]).uuid != *skip implies exists|a: int|
                            0 <= a < rs@.len() && #[trigger] picked[a] == c by {
                        let a = choose|a: int| 0 <= a < old_len && #[trigger] old_picked[a] == c;
                        assert(picked[a] == c);
                    }
                }
            }
            i = i + 1;
        }
        proof {
            assert forall|a: int| 0 <= a < rs@.len() implies (#[trigger] rs@[a]).uuid != *skip
                && self@.contains_key(key_of(rs@[a].uuid)) && same_record(
                rs@[a],
                self@[key_of(rs@[a].uuid)],
            ) by {
                let c = picked[a];
                assert(same_record(rs@[a], *all@[c]));
                assert(self@.contains_key(key_of(all@[c].uuid)));
            }
            assert forall|a: int, b: int|
                0 <= a < b < rs@.len() implies (#[trigger] rs@[a]).uuid != (#[trigger] rs@[b]).uuid by {
                assert(picked[a] < picked[b]);
                assert(all@[picked[a]].uuid != all@[picked[b]].uuid);
            }
            assert forall|k: u128| #[trigger] self@.contains_key(k) && k != key_of(*skip) implies exists|
                a: int,
            |
                0 <= a < rs@.len() && key_of(#[trigger] rs@[a].uuid) == k by {
                let c = choose|c: int| 0 <= c < all@.len() && key_of(#[trigger] all@[c].uuid) == k;
                assert(all@[c].uuid != *skip);
                let a = choose|a: int| 0 <= a < rs@.len() && #[trigger] picked[a] == c;
                assert(key_of(rs@[a].uuid) == k);
            }
        }
        rs
    }
}

impl Default for PlayerRegistry {
    fn default() -> (r: Self)
        ensures
            r.wf(),
            r@ == Map::<u128, PlayerRecord>::empty(),
    {
        PlayerRegistry::new()
    }
}

/// Admitting a player who was not online and then removing it gives back
/// its record and leaves the registry as it was.
pub proof fn lemma_admit_then_depart(before: Map<u128, PlayerRecord>, record: PlayerRecord)
    requires
        before.dom().finite(),
        !before.contains_key(key_of(record.uuid)),
    ensures
        before.insert(key_of(record.uuid), record).contains_key(key_of(record.uuid)),
        before.insert(key_of(record.uuid), record)[key_of(record.uuid)] == record,
        before.insert(key_of(record.uuid), record).remove(key_of(record.uuid)) == before,
        before.insert(key_of(record.uuid), record).len() == before.len() + 1,
{
    let k = key_of(record.uuid);
    assert(before.insert(k, record).remove(k) =~= before);
    assert(before.insert(k, record).dom() =~= before.dom().insert(k));
}

} // verus!
