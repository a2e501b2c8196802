//! The core of a client-side store of versioned, page-addressed volumes
//! that sync lazily with a remote.
//!
//! The store keeps its rows in an ordered key-value substrate. This
//! library holds what the store decides: the layout of keys and values,
//! the batches of changes that commit, replicate, push and reset a volume,
//! what a read makes of the rows it finds, and the laws that hold of a
//! volume over any sequence of those decisions. Reading the substrate and
//! applying the batches is left to the caller.

pub mod batch;
pub mod bitmap;
pub mod block;
pub mod codec;
pub mod effects;
pub mod error;
pub mod fetch;
pub mod history;
pub mod keys;
pub mod laws;
pub mod memtable;
pub mod object_store;
pub mod page;
pub mod read;
pub mod rows;
pub mod scan;
pub mod snapshot;
pub mod storage;
pub mod substrate;
pub mod txn;
pub mod volume;
pub mod volume_id;
pub mod volume_reader;
pub mod volume_state;
