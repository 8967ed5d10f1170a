//! The vanilla wire registries, built from the registry report: every
//! registry that has entries, keyed by its identifier, with the wire id of
//! each of its entries.
use vstd::prelude::*;
use crate::data::registries::{Registry as ReportRegistry, RegistryEntry, RegistryReport};
use crate::identifier::{Identifier, parse_check, split_identifier};
use super::{IdKey, Registry};

verus! {

/// The wire entries of a report registry: each entry whose name is an
/// identifier, in the report's order, with its wire id.
pub open spec fn wired_entries(es: Seq<(String, RegistryEntry)>) -> Seq<(IdKey, i32)>
    decreases es.len(),
{
    if es.len() == 0 {
        Seq::empty()
    } else if parse_check(es.last().0@) is Ok {
        wired_entries(es.drop_last()).push((split_identifier(es.last().0@), es.last().1.protocol_id))
    } else {
        wired_entries(es.drop_last())
    }
}

/// The wire registries of a report: each registry that has entries and
/// whose name is an identifier, with its wire entries; of two names that
/// read as the same identifier, the later one's registry is kept.
pub open spec fn wired_registries(rs: Seq<(String, ReportRegistry)>) -> Map<IdKey, Seq<(IdKey, i32)>>
    decreases rs.len(),
{
    if rs.len() == 0 {
        Map::empty()
    } else if rs.last().1.entries@.len() > 0 && parse_check(rs.last().0@) is Ok {
        wired_registries(rs.drop_last()).insert(
            split_identifier(rs.last().0@),
            wired_entries(rs.last().1.entries@),
        )
    } else {
        wired_registries(rs.drop_last())
    }
}

/// What a wire registry holds: each entry's identifier and wire id, in
/// order.
pub open spec fn wire_entries(r: Registry<i32>) -> Seq<(IdKey, i32)> {
    r.entries@.map_values(|e: (Identifier, i32)| (e.0@, e.1))
}

/// The identifiers of some keyed registries, in order.
pub open spec fn keys(s: Seq<(Identifier, Registry<i32>)>) -> Seq<IdKey> {
    s.map_values(|p: (Identifier, Registry<i32>)| p.0@)
}

/// The map the pairs of `s` make, a later pair winning over an earlier one.
pub open spec fn pairs_map(s: Seq<(Identifier, Registry<i32>)>) -> Map<IdKey, Seq<(IdKey, i32)>>
    decreases s.len(),
{
    if s.len() == 0 {
        Map::empty()
    } else {
        pairs_map(s.drop_last()).insert(s.last().0@, wire_entries(s.last().1))
    }
}

/// With no identifier twice, each pair of `s` is in its map, and the map
/// holds nothing else.
proof fn lemma_pairs_map(s: Seq<(Identifier, Registry<i32>)>)
    requires
        keys(s).no_duplicates(),
    ensures
        forall|i: int|
            0 <= i < s.len() ==> pairs_map(s).contains_key(#[trigger] s[i].0@) && pairs_map(s)[s[i].0@]
                == wire_entries(s[i].1),
        forall|k: IdKey| #[trigger] pairs_map(s).contains_key(k) <==> keys(s).contains(k),
    decreases s.len(),
{
    if s.len() > 0 {
        let d = s.drop_last();
        assert(keys(d) =~= keys(s).drop_last());
        lemma_pairs_map(d);
        assert forall|i: int| 0 <= i < s.len() implies pairs_map(s).contains_key(#[trigger] s[i].0@)
            && pairs_map(s)[s[i].0@] == wire_entries(s[i].1) by {
            if i < s.len() - 1 {
                assert(keys(s)[i] == s[i].0@);
                assert(keys(s)[s.len() - 1] == s.last().0@);
                assert(d[i] == s[i]);
            }
        }
        assert forall|k: IdKey| #[trigger] pairs_map(s).contains_key(k) <==> keys(s).contains(k) by {
            if keys(s).contains(k) {
                let i = keys(s).index_of(k);
                assert(keys(s)[i] == s[i].0@);
            }
            if pairs_map(d).contains_key(k) {
                let j = keys(d).index_of(k);
                assert(keys(s)[j] == keys(d)[j]);
            }
            if k == s.last().0@ {
                assert(keys(s)[s.len() - 1] == k);
            }
        }
    }
}

/// Replacing the pair at `k` by one under the same identifier sets that
/// identifier's entries and changes nothing else.
proof fn lemma_pairs_map_update(s: Seq<(Identifier, Registry<i32>)>, k: int, p: (Identifier, Registry<i32>))
    requires
        keys(s).no_duplicates(),
        0 <= k < s.len(),
        p.0@ == s[k].0@,
    ensures
        pairs_map(s.update(k, p)) == pairs_map(s).insert(p.0@, wire_entries(p.1)),
    decreases s.len(),
{
    let u = s.update(k, p);
    let d = s.drop_last();
    if k == s.len() - 1 {
        assert(u.drop_last() =~= d);
        assert(pairs_map(u) =~= pairs_map(s).insert(p.0@, wire_entries(p.1)));
    } else {
        assert(u.drop_last() =~= d.update(k, p));
        assert(keys(d) =~= keys(s).drop_last());
        lemma_pairs_map_update(d, k, p);
        assert(keys(s)[k] == s[k].0@);
        assert(keys(s)[s.len() - 1] == s.last().0@);
        assert(s.last().0@ != p.0@);
        assert(pairs_map(u) =~= pairs_map(s).insert(p.0@, wire_entries(p.1)));
    }
}

/// The wire registries: each keyed by its identifier.
#[derive(Debug)]
pub struct VanillaRegistries {
    pub registries: Vec<(Identifier, Registry<i32>)>,
}

impl View for VanillaRegistries {
    type V = Map<IdKey, Seq<(IdKey, i32)>>;

    /// Each registry's entries, by the registry's identifier.
    open spec fn view(&self) -> Map<IdKey, Seq<(IdKey, i32)>> {
        pairs_map(self.registries@)
    }
}

impl VanillaRegistries {
    /// No identifier stands twice, and each registry is well formed.
    pub open spec fn wf(&self) -> bool {
        &&& keys(self.registries@).no_duplicates()
        &&& forall|i: int| 0 <= i < self.registries@.len() ==> (#[trigger] self.registries@[i]).1.wf()
    }

    /// The wire registry of one report registry: its entries whose names
    /// are identifiers, with their wire ids.
    fn wire_registry(registry: &ReportRegistry) -> (r: Registry<i32>)
        ensures
            r.wf(),
            wire_entries(r) == wired_entries(registry.entries@),
    {
        let mut wire: Registry<i32> = Registry::new();
        let mut j: usize = 0;
        assert(wire_entries(wire) =~= wired_entries(registry.entries@.take(0)));
        while j < registry.entries.len()
            invariant
                j <= registry.entries@.len(),
                wire.wf(),
                wire.entries@.len() <= j,
                wire_entries(wire) == wired_entries(registry.entries@.take(j as int)),
            decreases registry.entries@.len() - j,
        {
            let entry = &registry.entries[j];
            let ghost before = wire.entries@;
            assert(registry.entries@.take(j + 1).drop_last() =~= registry.entries@.take(j as int));
            assert(registry.entries@.take(j + 1).last() == registry.entries@[j as int]);
            match Identifier::from_str(entry.0.as_str()) {
                Ok(entry_id) => {
                    wire.push(entry_id, entry.1.protocol_id);
                    assert(wire_entries(wire) =~= wired_entries(registry.entries@.take(j + 1)));
                },
                Err(_) => {},
            }
            j = j + 1;
        }
        assert(registry.entries@.take(j as int) =~= registry.entries@);
        wire
    }

    /// The wire registries of `report`: every registry with entries whose
    /// name is an identifier, each entry whose name is one, with its wire id.
    pub fn from_report(report: &RegistryReport) -> (v: Self)
        ensures
            v.wf(),
            v@ == wired_registries(report.registries@),
    {
        let mut out: Vec<(Identifier, Registry<i32>)> = Vec::new();
        let mut i: usize = 0;
        assert(keys(out@) =~= Seq::<IdKey>::empty());
        assert(report.registries@.take(0) =~= Seq::<(String, ReportRegistry)>::empty());
        while i < report.registries.len()
            invariant
                i <= report.registries@.len(),
                keys(out@).no_duplicates(),
                forall|a: int| 0 <= a < out@.len() ==> (#[trigger] out@[a]).1.wf(),
                pairs_map(out@) == wired_registries(report.registries@.take(i as int)),
            decreases report.registries@.len() - i,
        {
            let named = &report.registries[i];
            let ghost rs = report.registries@.take(i + 1);
            assert(rs.drop_last() =~= report.registries@.take(i as int));
            assert(rs.last() == report.registries@[i as int]);
            if named.1.entries.len() > 0 {
                match Identifier::from_str(named.0.as_str()) {
                    Ok(reg_id) => {
                        let wire = Self::wire_registry(&named.1);
                        proof {
                            lemma_pairs_map(out@);
                        }
                        let mut k: usize = 0;
                        while k < out.len()
                            invariant
                                k <= out@.len(),
                                forall|a: int| 0 <= a < k ==> out@[a].0@ != reg_id@,
                            ensures
                                k <= out@.len(),
                                forall|a: int| 0 <= a < k ==> out@[a].0@ != reg_id@,
                                k < out@.len() ==> out@[k as int].0@ == reg_id@,
                            decreases out@.len() - k,
                        {
                            if out[k].0 == reg_id {
                                break;
                            }
                            k = k + 1;
                        }
                        let ghost old_out = out@;
                        if k < out.len() {
                            proof {
                                lemma_pairs_map_update(old_out, k as int, (reg_id, wire));
                            }
                            out.set(k, (reg_id, wire));
                            proof {
                                assert(keys(out@) =~= keys(old_out));
                            }
                        } else {
                            proof {
                                assert(!keys(old_out).contains(reg_id@)) by {
                                    if keys(old_out).contains(reg_id@) {
                                        let a = keys(old_out).index_of(reg_id@);
                                        assert(old_out[a].0@ == reg_id@);
                                    }
                                }
                            }
                            out.push((reg_id, wire));
                            proof {
                                assert(out@.drop_last() =~= old_out);
                                assert(keys(out@) =~= keys(old_out).push(reg_id@));
                            }
                        }
                    },
                    Err(_) => {},
                }
            }
            i = i + 1;
        }
        assert(report.registries@.take(i as int) =~= report.registries@);
        VanillaRegistries { registries: out }
    }

    /// The registry `id` names, if there is one.
    pub fn get(&self, id: &Identifier) -> (r: Option<&Registry<i32>>)
        requires
            self.wf(),
        ensures
            r is Some <==> self@.contains_key(id@),
            r matches Some(reg) ==> reg.wf() && wire_entries(*reg) == self@[id@],
    {
        proof {
            lemma_pairs_map(self.registries@);
        }
        let mut k: usize = 0;
        while k < self.registries.len()
            invariant
                self.wf(),
                k <= self.registries@.len(),
                forall|a: int| 0 <= a < k ==> self.registries@[a].0@ != id@,
            decreases self.registries@.len() - k,
        {
            if self.registries[k].0 == *id {
                proof {
                    lemma_pairs_map(self.registries@);
                }
                return Some(&self.registries[k].1);
            }
            k = k + 1;
        }
        proof {
            if keys(self.registries@).contains(id@) {
                let a = keys(self.registries@).index_of(id@);
                assert(self.registries@[a].0@ == id@);
            }
        }
        None
    }

    /// The number of registries.
    pub fn len(&self) -> (n: usize)
        requires
            self.wf(),
        ensures
            n == self@.len(),
    {
        proof {
            lemma_pairs_map(self.registries@);
            let ks = keys(self.registries@);
            assert(self@.dom() =~= ks.to_set());
            ks.unique_seq_to_set();
        }
        self.registries.len()
    }

    /// Whether there is no registry.
    pub fn is_empty(&self) -> (b: bool)
        requires
            self.wf(),
        ensures
            b <==> self@.len() == 0,
    {
        self.len() == 0
    }

    /// Every registry with its identifier, each once.
    pub fn iter(&self) -> (items: Vec<(&Identifier, &Registry<i32>)>)
        requires
            self.wf(),
        ensures
            items@.len() == self@.len(),
            forall|i: int|
                0 <= i < items@.len() ==> self@.contains_key((#[trigger] items@[i]).0@) && wire_entries(
                    *items@[i].1,
                ) == self@[items@[i].0@],
            forall|k: IdKey| #[trigger] self@.contains_key(k) ==> exists|i: int|
                0 <= i < items@.len() && (#[trigger] items@[i]).0@ == k,
    {
        proof {
            lemma_pairs_map(self.registries@);
            let ks = keys(self.registries@);
            assert(self@.dom() =~= ks.to_set());
            ks.unique_seq_to_set();
        }
        let mut items: Vec<(&Identifier, &Registry<i32>)> = Vec::new();
        let mut i: usize = 0;
        while i < self.registries.len()
            invariant
                i <= self.registries@.len(),
                items@.len() == i,
                forall|j: int|
                    0 <= j < i ==> *(#[trigger] items@[j]).0 == self.registries@[j].0 && *items@[j].1
                        == self.registries@[j].1,
            decreases self.registries@.len() - i,
        {
            let e = &self.registries[i];
            items.push((&e.0, &e.1));
            i = i + 1;
        }
        proof {
            assert forall|i: int| 0 <= i < items@.len() implies self@.contains_key(
                (#[trigger] items@[i]).0@,
            ) && wire_entries(*items@[i].1) == self@[items@[i].0@] by {
                assert(items@[i].0@ == self.registries@[i].0@);
            }
            assert forall|k: IdKey| #[trigger] self@.contains_key(k) implies exists|i: int|
                0 <= i < items@.len() && (#[trigger] items@[i]).0@ == k by {
                let a = keys(self.registries@).index_of(k);
                assert(keys(self.registries@)[a] == self.registries@[a].0@);
                assert(items@[a].0@ == k);
            }
        }
        items
    }
}

} // verus!
