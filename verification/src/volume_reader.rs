//! Readers of a volume at a snapshot, over the local page cache.

use vstd::prelude::*;

use crate::error::StorageErr;
use crate::page::{PageContent, PageValue};
use crate::read::read_found;
use crate::snapshot::Snapshot;
use crate::storage::Storage;
use crate::txn::{found_view, snapshot_read, ReadOutcome, ReadTxn, WriteTxn};
use crate::volume_id::VolumeId;

verus! {

/// What the local cache holds for a reader pinned to `snapshot`, where
/// the scan of the read range found `found`: nothing, at no sequence
/// number, without a snapshot; else the page value found and its
/// sequence number.
pub open spec fn cached_read(snapshot: Option<Snapshot>, found: Option<(Seq<u8>, Seq<u8>)>) -> Result<
    (Option<u64>, PageContent),
    StorageErr,
> {
    match snapshot {
        None => Ok((None, PageContent::Empty)),
        Some(snapshot) => match read_found(snapshot.local, found) {
            Ok((lsn, content)) => Ok((Some(lsn), content)),
            Err(err) => Err(err),
        },
    }
}

/// A reader of a volume: the volume and the snapshot that it reads at.
#[derive(Clone, Copy, Debug, PartialEq, Eq, Structural)]
pub struct VolumeReader {
    pub vid: VolumeId,
    pub snapshot: Option<Snapshot>,
}

impl VolumeReader {
    /// A reader of `vid` at `snapshot`.
    pub fn new(vid: VolumeId, snapshot: Option<Snapshot>) -> (reader: VolumeReader)
        ensures
            reader == (VolumeReader { vid, snapshot }),
    {
        VolumeReader { vid, snapshot }
    }

    /// The volume that is read.
    pub fn vid(&self) -> (vid: &VolumeId)
        ensures
            *vid == self.vid,
    {
        &self.vid
    }

    /// The snapshot that is read at.
    pub fn snapshot(&self) -> (snapshot: Option<&Snapshot>)
        ensures
            snapshot is Some <==> self.snapshot is Some,
            snapshot matches Some(s) ==> Some(*s) == self.snapshot,
    {
        self.snapshot.as_ref()
    }

    /// The volume and the snapshot of the reader.
    pub fn into_parts(self) -> (parts: (VolumeId, Option<Snapshot>))
        ensures
            parts == (self.vid, self.snapshot),
    {
        (self.vid, self.snapshot)
    }

    /// Turns the reader into a writer on the same snapshot.
    pub fn upgrade(self) -> (writer: WriteTxn)
        ensures
            writer.reader() == (ReadTxn { vid: self.vid, snapshot: self.snapshot }),
            writer.rows() == Seq::<(u32, Seq<u8>)>::empty(),
            writer@ == Map::<u32, Seq<u8>>::empty(),
            writer.wf(),
    {
        WriteTxn::new(ReadTxn::new(self.vid, self.snapshot))
    }

    /// What the local cache holds for the page at `offset`: `found` is
    /// the last row of the read range, if it has a row.
    pub fn read_cached(&self, found: Option<(&[u8], &[u8])>) -> (result: Result<
        (Option<u64>, PageValue),
        StorageErr,
    >)
        ensures
            match cached_read(self.snapshot, found_view(found)) {
                Ok((at, content)) => result matches Ok((lsn, value)) && lsn == at && value@
                    == content,
                Err(err) => result matches Err(e) && e == err,
            },
    {
        match self.snapshot {
            None => Ok((None, PageValue::Empty)),
            Some(snapshot) => match Storage::read(snapshot.local, found) {
                Ok((lsn, value)) => Ok((Some(lsn), value)),
                Err(err) => Err(err),
            },
        }
    }

    /// Reads the page at `offset`: `found` is the last row of the read
    /// range, if it has a row. A cache hit gives the page; a pending page
    /// is to be fetched.
    pub fn read(&self, offset: u32, found: Option<(&[u8], &[u8])>) -> (result: Result<
        ReadOutcome,
        StorageErr,
    >)
        ensures
            match snapshot_read(self.snapshot, offset, found_view(found)) {
                Ok(outcome) => result matches Ok(read) && read@ == outcome,
                Err(err) => result matches Err(e) && e == err,
            },
    {
        ReadTxn::new(self.vid, self.snapshot).read(offset, found)
    }
}

} // verus!
