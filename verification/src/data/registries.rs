//! The registry report: every vanilla registry with the wire id of each of
//! its entries.
use vstd::prelude::*;
use crate::strings::{lemma_text_lt_irreflexive, lemma_text_lt_trans, str_lt, text_lt};
use super::table::{first_index, index_of_key, keys_of, lemma_first_index};

verus! {

/// One registry entry.
#[derive(Debug, Clone, Copy, PartialEq, Eq, Structural)]
pub struct RegistryEntry {
    /// Wire id of the entry.
    pub protocol_id: i32,
}

/// One registry: its default entry, its entries by resource location, and
/// its own protocol id.
#[derive(Debug, Clone)]
pub struct Registry {
    pub default: Option<String>,
    pub entries: Vec<(String, RegistryEntry)>,
    pub protocol_id: Option<i32>,
}

/// Every registry, by name, in the report's order.
#[derive(Debug, Clone)]
pub struct RegistryReport {
    pub registries: Vec<(String, Registry)>,
}

/// The registry named `name`, if the report has it.
pub open spec fn registry_spec(report: RegistryReport, name: Seq<char>) -> Option<Registry> {
    match first_index(keys_of(report.registries@), name) {
        Some(i) => Some(report.registries@[i].1),
        None => None,
    }
}

/// The wire id of `entry` in `registry`.
pub open spec fn protocol_id_spec(report: RegistryReport, registry: Seq<char>, entry: Seq<char>) -> Option<i32> {
    match registry_spec(report, registry) {
        Some(r) => match first_index(keys_of(r.entries@), entry) {
            Some(i) => Some(r.entries@[i].1.protocol_id),
            None => None,
        },
        None => None,
    }
}

/// Whether `entries[i]` has wire id `id` and no entry with that id has a
/// name before its own in the order of names.
pub open spec fn least_with_id(entries: Seq<(String, RegistryEntry)>, id: i32, i: int) -> bool {
    &&& 0 <= i < entries.len()
    &&& entries[i].1.protocol_id == id
    &&& forall|j: int|
        0 <= j < entries.len() && #[trigger] entries[j].1.protocol_id == id ==> !text_lt(
            entries[j].0@,
            entries[i].0@,
        )
}

/// The answer to `resource_location`: where the registry has entries with
/// wire id `id`, one whose name comes first in the order of names (the
/// order the report's map keeps its keys in); `None` otherwise.
pub open spec fn resource_location_ok(report: RegistryReport, registry: Seq<char>, id: i32, r: Option<Seq<char>>) -> bool {
    match registry_spec(report, registry) {
        Some(reg) => match r {
            Some(name) => exists|i: int| #[trigger] least_with_id(reg.entries@, id, i) && reg.entries@[i].0@ == name,
            None => forall|j: int| 0 <= j < reg.entries@.len() ==> #[trigger] reg.entries@[j].1.protocol_id != id,
        },
        None => r is None,
    }
}

/// No two of `keys` are the same.
pub open spec fn distinct_keys(keys: Seq<Seq<char>>) -> bool {
    forall|i: int, j: int| 0 <= i < j < keys.len() ==> keys[i] != keys[j]
}

/// A report as the JSON maps it is read from make it: registry names are
/// unique, and so are the entry names within each registry.
pub open spec fn report_well_formed(report: RegistryReport) -> bool {
    &&& distinct_keys(keys_of(report.registries@))
    &&& forall|k: int|
        0 <= k < report.registries@.len() ==> distinct_keys(
            keys_of(#[trigger] report.registries@[k].1.entries@),
        )
}

/// In a well-formed report, looking up the name that `resource_location`
/// gives for `id` gives `id` back.
pub proof fn lemma_resource_location_round_trip(
    report: RegistryReport,
    registry: Seq<char>,
    id: i32,
    name: Seq<char>,
)
    requires
        report_well_formed(report),
        resource_location_ok(report, registry, id, Some(name)),
    ensures
        protocol_id_spec(report, registry, name) == Some(id),
{
    let rkeys = keys_of(report.registries@);
    lemma_first_index(rkeys, registry);
    let k = first_index(rkeys, registry)->0;
    let reg = report.registries@[k].1;
    assert(report.registries@[k].1.entries@ == reg.entries@);
    let keys = keys_of(reg.entries@);
    let i = choose|i: int| #[trigger] least_with_id(reg.entries@, id, i) && reg.entries@[i].0@ == name;
    assert(keys[i] == name);
    lemma_first_index(keys, name);
    let j = first_index(keys, name)->0;
    assert(distinct_keys(keys));
    if j != i {
        if j < i {
            assert(keys[j] != keys[i]);
        } else {
            assert(keys[i] != keys[j]);
        }
    }
}

/// The registry named `name` (such as `minecraft:entity_type`).
pub fn get<'a>(report: &'a RegistryReport, name: &str) -> (r: Option<&'a Registry>)
    ensures
        r == (match registry_spec(*report, name@) {
            Some(reg) => Some(&reg),
            None => None,
        }),
{
    match index_of_key(&report.registries, name) {
        Some(i) => {
            proof {
                lemma_first_index(keys_of(report.registries@), name@);
            }
            Some(&report.registries[i].1)
        },
        None => None,
    }
}

/// The wire id of `entry` in `registry`, if both exist.
pub fn protocol_id(report: &RegistryReport, registry: &str, entry: &str) -> (r: Option<i32>)
    ensures
        r == protocol_id_spec(*report, registry@, entry@),
{
    match get(report, registry) {
        Some(reg) => match index_of_key(&reg.entries, entry) {
            Some(i) => {
                proof {
                    lemma_first_index(keys_of(reg.entries@), entry@);
                }
                Some(reg.entries[i].1.protocol_id)
            },
            None => None,
        },
        None => None,
    }
}

/// The resource location of an entry of `registry` with wire id `id`:
/// of several, the one whose name comes first.
pub fn resource_location<'a>(report: &'a RegistryReport, registry: &str, id: i32) -> (r: Option<&'a str>)
    ensures
        resource_location_ok(
            *report,
            registry@,
            id,
            match r {
                Some(s) => Some(s@),
                None => None,
            },
        ),
{
    match get(report, registry) {
        Some(reg) => {
            let mut best: Option<usize> = None;
            let mut i: usize = 0;
            while i < reg.entries.len()
                invariant
                    i <= reg.entries@.len(),
                    registry_spec(*report, registry@) == Some(*reg),
                    best is None ==> forall|j: int| 0 <= j < i ==> #[trigger] reg.entries@[j].1.protocol_id != id,
                    best matches Some(b) ==> b < i && reg.entries@[b as int].1.protocol_id == id && forall|j: int|
                        0 <= j < i && #[trigger] reg.entries@[j].1.protocol_id == id ==> !text_lt(
                            reg.entries@[j].0@,
                            reg.entries@[b as int].0@,
                        ),
                decreases reg.entries@.len() - i,
            {
                if reg.entries[i].1.protocol_id == id {
                    match best {
                        None => {
                            best = Some(i);
                            proof {
                                lemma_text_lt_irreflexive(reg.entries@[i as int].0@);
                            }
                        },
                        Some(b) => {
                            if str_lt(reg.entries[i].0.as_str(), reg.entries[b].0.as_str()) {
                                proof {
                                    lemma_text_lt_irreflexive(reg.entries@[i as int].0@);
                                    assert forall|j: int|
                                        0 <= j < i + 1 && #[trigger] reg.entries@[j].1.protocol_id == id implies !text_lt(
                                            reg.entries@[j].0@,
                                            reg.entries@[i as int].0@,
                                        ) by {
                                        if j < i && text_lt(reg.entries@[j].0@, reg.entries@[i as int].0@) {
                                            lemma_text_lt_trans(
                                                reg.entries@[j].0@,
                                                reg.entries@[i as int].0@,
                                                reg.entries@[b as int].0@,
                                            );
                                        }
                                    }
                                }
                                best = Some(i);
                            }
                        },
                    }
                }
                i = i + 1;
            }
            match best {
                Some(b) => {
                    proof {
                        assert(least_with_id(reg.entries@, id, b as int));
                    }
                    Some(reg.entries[b].0.as_str())
                },
                None => None,
            }
        },
        None => None,
    }
}

/// The number of registries in the report.
pub fn count(report: &RegistryReport) -> (n: usize)
    ensures
        n == report.registries@.len(),
{
    report.registries.len()
}

} // verus!
