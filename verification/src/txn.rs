//! Read and write transactions: readers pinned to a snapshot, and writers
//! that collect pages for one commit.

use vstd::prelude::*;

use crate::batch::{Batch, Notice};
use crate::error::StorageErr;
use crate::keys::PageKey;
use crate::memtable::{rows_inserted, Memtable};
use crate::page::{Page, PageContent, PageValue, PAGESIZE};
use crate::read::read_found;
use crate::snapshot::{Snapshot, FIRST_LSN};
use crate::storage::{commit_changes, commit_snapshot, Storage};
use crate::volume_id::VolumeId;
use crate::volume_state::local_lsn;

verus! {

/// The page of a volume where nothing was ever written.
pub open spec fn zero_page() -> Seq<u8> {
    Seq::new(PAGESIZE as nat, |i: int| 0u8)
}

/// What a read of a page comes to, as a plain value.
pub enum ReadResult {
    /// The page is at hand.
    Page(Seq<u8>),
    /// The page is pending: it is to be fetched from the remote at
    /// `remote_lsn`, for the reader at `local_lsn`.
    Fetch { remote_lsn: u64, local_lsn: u64, offset: u32 },
}

/// What a read of a page comes to.
#[derive(Debug, PartialEq, Eq)]
pub enum ReadOutcome {
    /// The page is at hand.
    Page(Page),
    /// The page is pending: it is to be fetched from the remote at
    /// `remote_lsn`, for the reader at `local_lsn`.
    Fetch { remote_lsn: u64, local_lsn: u64, offset: u32 },
}

impl View for ReadOutcome {
    type V = ReadResult;

    open spec fn view(&self) -> ReadResult {
        match self {
            ReadOutcome::Page(page) => ReadResult::Page(page@),
            ReadOutcome::Fetch { remote_lsn, local_lsn, offset } => ReadResult::Fetch {
                remote_lsn: *remote_lsn,
                local_lsn: *local_lsn,
                offset: *offset,
            },
        }
    }
}

/// What a reader at `snapshot` makes of the page value found for
/// `offset`: the page itself; zeros where nothing was written; a fetch
/// where the page is pending and the snapshot knows the remote, zeros
/// where it does not.
pub open spec fn resolve(snapshot: Snapshot, offset: u32, found: (u64, PageContent)) -> ReadResult {
    match found.1 {
        PageContent::Available(page) => ReadResult::Page(page),
        PageContent::Empty => ReadResult::Page(zero_page()),
        PageContent::Pending => match snapshot.remote {
            Some(remote_lsn) => ReadResult::Fetch { remote_lsn, local_lsn: snapshot.local, offset },
            None => ReadResult::Page(zero_page()),
        },
    }
}

/// What a reader pinned to `snapshot` reads at `offset`, where the scan
/// of the read range found `found`: zeros without a snapshot, and else
/// what the page value found comes to.
pub open spec fn snapshot_read(
    snapshot: Option<Snapshot>,
    offset: u32,
    found: Option<(Seq<u8>, Seq<u8>)>,
) -> Result<ReadResult, StorageErr> {
    match snapshot {
        None => Ok(ReadResult::Page(zero_page())),
        Some(snapshot) => match read_found(snapshot.local, found) {
            Ok(value) => Ok(resolve(snapshot, offset, value)),
            Err(err) => Err(err),
        },
    }
}

/// The rows that a scan found, as plain values.
pub open spec fn found_view(found: Option<(&[u8], &[u8])>) -> Option<(Seq<u8>, Seq<u8>)> {
    match found {
        Some((key, value)) => Some((key@, value@)),
        None => None,
    }
}

/// A read transaction: a volume and the snapshot that its reads are
/// pinned to, if the volume has one.
#[derive(Clone, Copy, Debug, PartialEq, Eq, Structural)]
pub struct ReadTxn {
    pub vid: VolumeId,
    pub snapshot: Option<Snapshot>,
}

impl ReadTxn {
    /// Whether the snapshot holds real sequence numbers.
    pub open spec fn wf(self) -> bool {
        self.snapshot matches Some(snapshot) ==> snapshot.wf()
    }

    /// A read transaction on `vid`, pinned to `snapshot`.
    pub fn new(vid: VolumeId, snapshot: Option<Snapshot>) -> (txn: ReadTxn)
        ensures
            txn == (ReadTxn { vid, snapshot }),
    {
        ReadTxn { vid, snapshot }
    }

    /// The volume of the transaction.
    pub fn vid(&self) -> (vid: &VolumeId)
        ensures
            *vid == self.vid,
    {
        &self.vid
    }

    /// The snapshot of the transaction.
    pub fn snapshot(&self) -> (snapshot: Option<&Snapshot>)
        ensures
            snapshot is Some <==> self.snapshot is Some,
            snapshot matches Some(s) ==> Some(*s) == self.snapshot,
    {
        self.snapshot.as_ref()
    }

    /// The range of page keys to scan for a read of `offset`, where there
    /// is a snapshot to read at. The read takes the last row of the range.
    pub fn read_range(&self, offset: u32) -> (range: Option<(Vec<u8>, Vec<u8>)>)
        requires
            self.wf(),
        ensures
            range is Some <==> self.snapshot is Some,
            range matches Some(bounds) ==> bounds.0@ == (PageKey {
                vid: self.vid,
                offset,
                lsn: FIRST_LSN,
            }).bytes() && bounds.1@ == (PageKey {
                vid: self.vid,
                offset,
                lsn: self.snapshot->Some_0.local,
            }).bytes(),
    {
        match self.snapshot {
            Some(snapshot) => Some(Storage::read_range(&self.vid, snapshot.local, offset)),
            None => None,
        }
    }

    /// Reads the page at `offset` as of the snapshot: `found` is the last
    /// row of the range that `read_range` gives, if it has a row.
    pub fn read(&self, offset: u32, found: Option<(&[u8], &[u8])>) -> (result: Result<
        ReadOutcome,
        StorageErr,
    >)
        ensures
            match snapshot_read(self.snapshot, offset, found_view(found)) {
                Ok(outcome) => result matches Ok(read) && read@ == outcome,
                Err(err) => result matches Err(e) && e == err,
            },
    {
        match self.snapshot {
            None => Ok(ReadOutcome::Page(Page::empty())),
            Some(snapshot) => {
                let (lsn, value) = match Storage::read(snapshot.local, found) {
                    Ok(read) => read,
                    Err(err) => {
                        return Err(err);
                    },
                };
                match value {
                    PageValue::Available(page) => Ok(ReadOutcome::Page(page)),
                    PageValue::Empty => Ok(ReadOutcome::Page(Page::empty())),
                    PageValue::Pending => match snapshot.remote {
                        Some(remote_lsn) => Ok(
                            ReadOutcome::Fetch { remote_lsn, local_lsn: snapshot.local, offset },
                        ),
                        None => Ok(ReadOutcome::Page(Page::empty())),
                    },
                }
            },
        }
    }

    /// Turns this read transaction into a write transaction.
    pub fn upgrade(self) -> (txn: WriteTxn)
        ensures
            txn.reader() == self,
            txn.rows() == Seq::<(u32, Seq<u8>)>::empty(),
            txn@ == Map::<u32, Seq<u8>>::empty(),
            txn.wf(),
    {
        WriteTxn::new(self)
    }
}

/// A write transaction: a read transaction and the pages written since.
pub struct WriteTxn {
    read_txn: ReadTxn,
    memtable: Memtable,
}

impl View for WriteTxn {
    type V = Map<u32, Seq<u8>>;

    /// The pages written in the transaction, by offset.
    closed spec fn view(&self) -> Map<u32, Seq<u8>> {
        self.memtable@
    }
}

impl WriteTxn {
    /// The read transaction that this one was made from.
    pub closed spec fn reader(&self) -> ReadTxn {
        self.read_txn
    }

    /// The pages written, in the order of their offsets.
    pub closed spec fn rows(&self) -> Seq<(u32, Seq<u8>)> {
        self.memtable.rows()
    }

    /// Whether the written pages are in order. Every transaction made by
    /// `new` and `write` is.
    pub closed spec fn wf(&self) -> bool {
        self.memtable.wf()
    }

    /// A write transaction on the snapshot of `read_txn`, with nothing
    /// written yet.
    pub fn new(read_txn: ReadTxn) -> (txn: WriteTxn)
        ensures
            txn.reader() == read_txn,
            txn.rows() == Seq::<(u32, Seq<u8>)>::empty(),
            txn@ == Map::<u32, Seq<u8>>::empty(),
            txn.wf(),
    {
        WriteTxn { read_txn, memtable: Memtable::new() }
    }

    /// The volume of the transaction.
    pub fn vid(&self) -> (vid: &VolumeId)
        ensures
            *vid == self.reader().vid,
    {
        self.read_txn.vid()
    }

    /// The snapshot that the transaction reads at and commits on.
    pub fn snapshot(&self) -> (snapshot: Option<&Snapshot>)
        ensures
            snapshot is Some <==> self.reader().snapshot is Some,
            snapshot matches Some(s) ==> Some(*s) == self.reader().snapshot,
    {
        self.read_txn.snapshot()
    }

    /// The page written at `offset` in this transaction, if one was: a
    /// transaction reads its own writes before anything stored.
    pub fn read_written(&self, offset: u32) -> (page: Option<Page>)
        requires
            self.wf(),
        ensures
            page is Some <==> self@.contains_key(offset),
            page matches Some(p) ==> p@ == self@[offset],
    {
        match self.memtable.get(offset) {
            Some(page) => Some(page.clone()),
            None => None,
        }
    }

    /// Reads the page at `offset`: the page written in this transaction,
    /// or else what the snapshot gives, where `found` is the last row of
    /// the read range.
    pub fn read(&self, offset: u32, found: Option<(&[u8], &[u8])>) -> (result: Result<
        ReadOutcome,
        StorageErr,
    >)
        requires
            self.wf(),
        ensures
            self@.contains_key(offset) ==> (result matches Ok(read) && read@ == ReadResult::Page(
                self@[offset],
            )),
            !self@.contains_key(offset) ==> match snapshot_read(
                self.reader().snapshot,
                offset,
                found_view(found),
            ) {
                Ok(outcome) => result matches Ok(read) && read@ == outcome,
                Err(err) => result matches Err(e) && e == err,
            },
    {
        match self.memtable.get(offset) {
            Some(page) => Ok(ReadOutcome::Page(page.clone())),
            None => self.read_txn.read(offset, found),
        }
    }

    /// The largest offset written in this transaction.
    pub fn last_offset(&self) -> (offset: Option<u32>)
        requires
            self.wf(),
        ensures
            offset is Some <==> self.rows().len() > 0,
            offset matches Some(o) ==> o == self.rows().last().0,
    {
        self.memtable.last_offset()
    }

    /// Writes `page` at `offset`, in place of what this transaction wrote
    /// there before.
    pub fn write(&mut self, offset: u32, page: Page)
        requires
            old(self).wf(),
        ensures
            final(self).rows() == rows_inserted(old(self).rows(), offset, page@),
            final(self)@ == old(self)@.insert(offset, page@),
            final(self).reader() == old(self).reader(),
            final(self).wf(),
    {
        self.memtable.insert(offset, page);
    }

    /// Commits the transaction: `latest` is the volume's snapshot row as
    /// it is now, read under the commit lock. Returns a read transaction
    /// at the new snapshot and the batch to apply, or `ConcurrentWrite`
    /// where the volume has moved on since the transaction began.
    pub fn commit(self, latest: Option<Snapshot>) -> (result: Result<(ReadTxn, Batch), StorageErr>)
        requires
            self.wf(),
            self.reader().wf(),
            self.reader().snapshot matches Some(read) ==> read.local < u64::MAX,
            self.rows().len() > 0 ==> self.rows().last().0 < u32::MAX,
        ensures
            match result {
                Ok((txn, batch)) => {
                    &&& local_lsn(latest) == local_lsn(self.reader().snapshot)
                    &&& txn.vid == self.reader().vid
                    &&& txn.snapshot == Some(commit_snapshot(self.reader().snapshot, self.rows()))
                    &&& txn.wf()
                    &&& batch@ == commit_changes(self.reader().snapshot, self.rows())
                    &&& batch.volume() == self.reader().vid
                    &&& batch.published() == Some(Notice::LocalChanged)
                },
                Err(err) => err == StorageErr::ConcurrentWrite && local_lsn(latest) != local_lsn(
                    self.reader().snapshot,
                ),
            },
    {
        let WriteTxn { read_txn, memtable } = self;
        match Storage::commit(&read_txn.vid, read_txn.snapshot, &memtable, latest) {
            Ok((snapshot, batch)) => Ok((ReadTxn::new(read_txn.vid, Some(snapshot)), batch)),
            Err(err) => Err(err),
        }
    }
}

} // verus!
