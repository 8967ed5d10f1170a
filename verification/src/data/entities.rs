//! Entity types: the `minecraft:entity_type` registry of the report.
use vstd::prelude::*;
use super::registries::{
    Registry, RegistryReport, get, protocol_id_spec, registry_spec, resource_location_ok,
};

verus! {

/// The name of the entity type registry.
pub const REGISTRY_NAME: &'static str = "minecraft:entity_type";

/// The entity type registry.
pub fn registry(report: &RegistryReport) -> (r: Option<&Registry>)
    ensures
        r == (match registry_spec(*report, REGISTRY_NAME@) {
            Some(reg) => Some(&reg),
            None => None,
        }),
{
    get(report, REGISTRY_NAME)
}

/// The wire id of an entity type (such as `minecraft:cow`).
pub fn protocol_id(report: &RegistryReport, resource_location: &str) -> (r: Option<i32>)
    ensures
        r == protocol_id_spec(*report, REGISTRY_NAME@, resource_location@),
{
    super::registries::protocol_id(report, REGISTRY_NAME, resource_location)
}

/// The entity type with wire id `protocol_id`.
pub fn resource_location<'a>(report: &'a RegistryReport, protocol_id: i32) -> (r: Option<&'a str>)
    ensures
        resource_location_ok(
            *report,
            REGISTRY_NAME@,
            protocol_id,
            match r {
                Some(s) => Some(s@),
                None => None,
            },
        ),
{
    super::registries::resource_location(report, REGISTRY_NAME, protocol_id)
}

/// How many entity types the report defines.
pub fn count(report: &RegistryReport) -> (n: Option<usize>)
    ensures
        n == (match registry_spec(*report, REGISTRY_NAME@) {
            Some(reg) => Some(reg.entries@.len() as usize),
            None => None,
        }),
{
    match registry(report) {
        Some(r) => Some(r.entries.len()),
        None => None,
    }
}

} // verus!
