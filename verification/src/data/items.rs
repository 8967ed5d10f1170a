//! The item report: each item's default data components.
use vstd::prelude::*;
use super::table::{first_index, index_of_key, keys_of, lemma_first_index};

verus! {

/// One item.
#[derive(Debug, Clone)]
pub struct Item {
    /// Each default data component, by name, as JSON text.
    pub components: Vec<(String, String)>,
}

/// Every item, by resource location, in the report's order.
#[derive(Debug, Clone)]
pub struct ItemReport {
    pub items: Vec<(String, Item)>,
}

/// The item with resource location `resource_location`.
pub fn get<'a>(report: &'a ItemReport, resource_location: &str) -> (r: Option<&'a Item>)
    ensures
        r == (match first_index(keys_of(report.items@), resource_location@) {
            Some(i) => Some(&report.items@[i].1),
            None => None,
        }),
{
    match index_of_key(&report.items, resource_location) {
        Some(i) => {
            proof {
                lemma_first_index(keys_of(report.items@), resource_location@);
            }
            Some(&report.items[i].1)
        },
        None => None,
    }
}

/// The number of items in the report.
pub fn count(report: &ItemReport) -> (n: usize)
    ensures
        n == report.items@.len(),
{
    report.items.len()
}

} // verus!
