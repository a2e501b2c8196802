//! Where a server keeps its objects.

use vstd::prelude::*;

verus! {

/// The configuration of an object store.
#[derive(Clone, Debug, PartialEq, Eq)]
pub enum ObjectStoreConfig {
    /// In memory object store
    Memory,
    /// On disk object store
    Fs { root: String },
    /// S3 compatible object store
    S3Compatible { bucket: String, prefix: Option<String> },
}

impl Default for ObjectStoreConfig {
    /// The default is the in-memory store.
    fn default() -> (config: ObjectStoreConfig)
        ensures
            config is Memory,
    {
        ObjectStoreConfig::Memory
    }
}

} // verus!
