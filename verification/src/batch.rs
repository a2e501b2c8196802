//! Changes to the rows of one volume, and batches of them.
//!
//! The store's decisions do not touch the substrate. Each of them returns
//! a batch: the changes to make, in order, as one atomic write.

use vstd::prelude::*;

use crate::page::{PageContent, PageValue};
use crate::snapshot::Snapshot;
use crate::volume_id::VolumeId;
use crate::volume_state::{VolumeConfig, VolumeStatus, Watermarks};

verus! {

/// One change to the rows of a volume, as a plain value.
pub enum Change {
    PutConfig(VolumeConfig),
    PutStatus(VolumeStatus),
    RemoveStatus,
    PutSnapshot(Snapshot),
    RemoveSnapshot,
    PutWatermarks(Watermarks),
    PutPage { offset: u32, lsn: u64, content: PageContent },
    RemovePage { offset: u32, lsn: u64 },
    PutCommit { lsn: u64, offsets: Set<u32> },
    RemoveCommit { lsn: u64 },
}

/// One change to the rows of a volume.
#[derive(Debug, PartialEq, Eq)]
pub enum Write {
    /// Stores the configuration.
    PutConfig(VolumeConfig),
    /// Stores the status.
    PutStatus(VolumeStatus),
    /// Removes the status row: the status is `Okay` again.
    RemoveStatus,
    /// Stores the snapshot.
    PutSnapshot(Snapshot),
    /// Removes the snapshot row.
    RemoveSnapshot,
    /// Stores the watermarks.
    PutWatermarks(Watermarks),
    /// Stores a page value at an offset and a sequence number.
    PutPage { offset: u32, lsn: u64, value: PageValue },
    /// Removes the page value at an offset and a sequence number.
    RemovePage { offset: u32, lsn: u64 },
    /// Stores the offsets that the commit at a sequence number changed.
    PutCommit { lsn: u64, offsets: Vec<u32> },
    /// Removes the commit at a sequence number.
    RemoveCommit { lsn: u64 },
}

impl View for Write {
    type V = Change;

    open spec fn view(&self) -> Change {
        match self {
            Write::PutConfig(config) => Change::PutConfig(*config),
            Write::PutStatus(status) => Change::PutStatus(*status),
            Write::RemoveStatus => Change::RemoveStatus,
            Write::PutSnapshot(snapshot) => Change::PutSnapshot(*snapshot),
            Write::RemoveSnapshot => Change::RemoveSnapshot,
            Write::PutWatermarks(watermarks) => Change::PutWatermarks(*watermarks),
            Write::PutPage { offset, lsn, value } => Change::PutPage {
                offset: *offset,
                lsn: *lsn,
                content: value@,
            },
            Write::RemovePage { offset, lsn } => Change::RemovePage { offset: *offset, lsn: *lsn },
            Write::PutCommit { lsn, offsets } => Change::PutCommit {
                lsn: *lsn,
                offsets: offsets@.to_set(),
            },
            Write::RemoveCommit { lsn } => Change::RemoveCommit { lsn: *lsn },
        }
    }
}

/// What subscribers are told once a batch was applied.
#[derive(Clone, Copy, Debug, PartialEq, Eq, Structural)]
pub enum Notice {
    /// The volume has a new local commit.
    LocalChanged,
    /// The volume has a new remote commit.
    RemoteChanged,
}

/// The changes that one decision makes to one volume, in order, and what
/// to tell subscribers of the volume afterwards. The substrate applies a
/// batch atomically.
#[derive(Debug, PartialEq, Eq)]
pub struct Batch {
    vid: VolumeId,
    writes: Vec<Write>,
    notice: Option<Notice>,
}

impl View for Batch {
    type V = Seq<Change>;

    closed spec fn view(&self) -> Seq<Change> {
        Seq::new(self.writes@.len(), |i: int| self.writes@[i]@)
    }
}

impl Batch {
    /// The volume whose rows the batch changes.
    pub closed spec fn volume(&self) -> VolumeId {
        self.vid
    }

    /// What to tell subscribers of the volume once the batch was applied,
    /// if anything.
    pub closed spec fn published(&self) -> Option<Notice> {
        self.notice
    }

    /// A batch without changes, and with nothing to tell.
    pub fn new(vid: VolumeId) -> (batch: Batch)
        ensures
            batch@ == Seq::<Change>::empty(),
            batch.volume() == vid,
            batch.published() is None,
    {
        let batch = Batch { vid, writes: Vec::new(), notice: None };
        assert(batch@ =~= Seq::<Change>::empty());
        batch
    }

    /// Adds a change at the end.
    pub fn push(&mut self, write: Write)
        ensures
            final(self)@ == old(self)@.push(write@),
            final(self).volume() == old(self).volume(),
            final(self).published() == old(self).published(),
    {
        self.writes.push(write);
        assert(self@ =~= old(self)@.push(write@));
    }

    /// Sets what to tell subscribers once the batch was applied.
    pub fn publish(&mut self, notice: Notice)
        ensures
            final(self)@ == old(self)@,
            final(self).volume() == old(self).volume(),
            final(self).published() == Some(notice),
    {
        self.notice = Some(notice);
    }

    /// What to tell subscribers of the volume once the batch was applied,
    /// if anything.
    pub fn notice(&self) -> (notice: Option<Notice>)
        ensures
            notice == self.published(),
    {
        self.notice
    }

    /// Adds the changes of `other` at the end.
    pub fn append(&mut self, other: Batch)
        ensures
            final(self)@ == old(self)@ + other@,
            final(self).volume() == old(self).volume(),
            final(self).published() == old(self).published(),
    {
        let ghost added = other@;
        let mut rest = other.writes;
        self.writes.append(&mut rest);
        assert(self@ =~= old(self)@ + added);
    }

    /// The volume whose rows the batch changes.
    pub fn vid(&self) -> (vid: &VolumeId)
        ensures
            *vid == self.volume(),
    {
        &self.vid
    }

    /// Number of changes.
    pub fn len(&self) -> (len: usize)
        ensures
            len == self@.len(),
    {
        self.writes.len()
    }

    /// Whether the batch changes nothing.
    pub fn is_empty(&self) -> (empty: bool)
        ensures
            empty == (self@.len() == 0),
    {
        self.writes.len() == 0
    }

    /// The change at `index`.
    pub fn get(&self, index: usize) -> (write: &Write)
        requires
            index < self@.len(),
        ensures
            write@ == self@[index as int],
    {
        &self.writes[index]
    }

    /// The changes, in order.
    pub fn writes(&self) -> (writes: &Vec<Write>)
        ensures
            writes@.len() == self@.len(),
            forall|i: int| 0 <= i < writes@.len() ==> (#[trigger] writes@[i])@ == self@[i],
    {
        &self.writes
    }
}

} // verus!
