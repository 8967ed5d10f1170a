//! What a plugin host offers plugins.
use vstd::prelude::*;

verus! {

/// A host that plugins run inside.
pub trait PluginHost {
    /// The host's name.
    fn name(&self) -> &str;
}

} // verus!
