//! The stored rows that a batch of changes turns into.

use vstd::prelude::*;

use crate::batch::{Batch, Change, Write};
use crate::bitmap::{bitmap_bytes, encode_offsets};
use crate::keys::{CommitKey, PageKey, VolumeStateKey};
use crate::volume_id::VolumeId;
use crate::volume_state::VolumeStateTag;

verus! {

/// The three partitions of the substrate.
#[derive(Clone, Copy, Debug, PartialEq, Eq, Structural)]
pub enum Partition {
    /// Volume state, keyed by volume and tag.
    Volumes,
    /// Page values, keyed by volume, offset and sequence number.
    Pages,
    /// Commit bitmaps, keyed by volume and sequence number.
    Commits,
}

/// One write to the substrate, as a plain value: the key to write in a
/// partition, and the value to store there, or none to remove the key.
pub struct Row {
    pub partition: Partition,
    pub key: Seq<u8>,
    pub value: Option<Seq<u8>>,
}

/// One write to the substrate: the key to write in a partition, and the
/// value to store there, or none to remove the key.
#[derive(Debug, PartialEq, Eq)]
pub struct RawWrite {
    pub partition: Partition,
    pub key: Vec<u8>,
    pub value: Option<Vec<u8>>,
}

impl View for RawWrite {
    type V = Row;

    open spec fn view(&self) -> Row {
        Row {
            partition: self.partition,
            key: self.key@,
            value: match self.value {
                Some(value) => Some(value@),
                None => None,
            },
        }
    }
}

impl Change {
    /// The write to the substrate that makes this change to volume `vid`.
    pub open spec fn row(self, vid: VolumeId) -> Row {
        match self {
            Change::PutConfig(config) => Row {
                partition: Partition::Volumes,
                key: (VolumeStateKey { vid, tag: VolumeStateTag::Config }).bytes(),
                value: Some(config.bytes()),
            },
            Change::PutStatus(status) => Row {
                partition: Partition::Volumes,
                key: (VolumeStateKey { vid, tag: VolumeStateTag::Status }).bytes(),
                value: Some(status.bytes()),
            },
            Change::RemoveStatus => Row {
                partition: Partition::Volumes,
                key: (VolumeStateKey { vid, tag: VolumeStateTag::Status }).bytes(),
                value: None,
            },
            Change::PutSnapshot(snapshot) => Row {
                partition: Partition::Volumes,
                key: (VolumeStateKey { vid, tag: VolumeStateTag::Snapshot }).bytes(),
                value: Some(snapshot.bytes()),
            },
            Change::RemoveSnapshot => Row {
                partition: Partition::Volumes,
                key: (VolumeStateKey { vid, tag: VolumeStateTag::Snapshot }).bytes(),
                value: None,
            },
            Change::PutWatermarks(watermarks) => Row {
                partition: Partition::Volumes,
                key: (VolumeStateKey { vid, tag: VolumeStateTag::Watermarks }).bytes(),
                value: Some(watermarks.bytes()),
            },
            Change::PutPage { offset, lsn, content } => Row {
                partition: Partition::Pages,
                key: (PageKey { vid, offset, lsn }).bytes(),
                value: Some(content.stored()),
            },
            Change::RemovePage { offset, lsn } => Row {
                partition: Partition::Pages,
                key: (PageKey { vid, offset, lsn }).bytes(),
                value: None,
            },
            Change::PutCommit { lsn, offsets } => Row {
                partition: Partition::Commits,
                key: (CommitKey { vid, lsn }).bytes(),
                value: Some(bitmap_bytes(offsets)),
            },
            Change::RemoveCommit { lsn } => Row {
                partition: Partition::Commits,
                key: (CommitKey { vid, lsn }).bytes(),
                value: None,
            },
        }
    }
}

impl Write {
    /// The write to the substrate that makes this change to volume `vid`.
    pub fn encode(&self, vid: &VolumeId) -> (raw: RawWrite)
        ensures
            raw@ == self@.row(*vid),
    {
        match self {
            Write::PutConfig(config) => RawWrite {
                partition: Partition::Volumes,
                key: VolumeStateKey { vid: *vid, tag: VolumeStateTag::Config }.to_bytes(),
                value: Some(config.to_bytes()),
            },
            Write::PutStatus(status) => RawWrite {
                partition: Partition::Volumes,
                key: VolumeStateKey { vid: *vid, tag: VolumeStateTag::Status }.to_bytes(),
                value: Some(status.to_bytes()),
            },
            Write::RemoveStatus => RawWrite {
                partition: Partition::Volumes,
                key: VolumeStateKey { vid: *vid, tag: VolumeStateTag::Status }.to_bytes(),
                value: None,
            },
            Write::PutSnapshot(snapshot) => RawWrite {
                partition: Partition::Volumes,
                key: VolumeStateKey { vid: *vid, tag: VolumeStateTag::Snapshot }.to_bytes(),
                value: Some(snapshot.to_bytes()),
            },
            Write::RemoveSnapshot => RawWrite {
                partition: Partition::Volumes,
                key: VolumeStateKey { vid: *vid, tag: VolumeStateTag::Snapshot }.to_bytes(),
                value: None,
            },
            Write::PutWatermarks(watermarks) => RawWrite {
                partition: Partition::Volumes,
                key: VolumeStateKey { vid: *vid, tag: VolumeStateTag::Watermarks }.to_bytes(),
                value: Some(watermarks.to_bytes()),
            },
            Write::PutPage { offset, lsn, value } => RawWrite {
                partition: Partition::Pages,
                key: PageKey { vid: *vid, offset: *offset, lsn: *lsn }.to_bytes(),
                value: Some(value.to_bytes()),
            },
            Write::RemovePage { offset, lsn } => RawWrite {
                partition: Partition::Pages,
                key: PageKey { vid: *vid, offset: *offset, lsn: *lsn }.to_bytes(),
                value: None,
            },
            Write::PutCommit { lsn, offsets } => RawWrite {
                partition: Partition::Commits,
                key: CommitKey { vid: *vid, lsn: *lsn }.to_bytes(),
                value: Some(encode_offsets(offsets)),
            },
            Write::RemoveCommit { lsn } => RawWrite {
                partition: Partition::Commits,
                key: CommitKey { vid: *vid, lsn: *lsn }.to_bytes(),
                value: None,
            },
        }
    }
}

impl Batch {
    /// The writes to the substrate that make the changes of the batch, in
    /// the order of the changes.
    pub fn encode(&self) -> (rows: Vec<RawWrite>)
        ensures
            rows@.len() == self@.len(),
            forall|i: int| 0 <= i < rows@.len() ==> (#[trigger] rows@[i])@ == self@[i].row(self.volume()),
    {
        let mut rows: Vec<RawWrite> = Vec::new();
        let mut next: usize = 0;
        while next < self.len()
            invariant
                next <= self@.len(),
                rows@.len() == next,
                forall|i: int| 0 <= i < next ==> (#[trigger] rows@[i])@ == self@[i].row(self.volume()),
            decreases self@.len() - next,
        {
            let raw = self.get(next).encode(self.vid());
            rows.push(raw);
            next += 1;
        }
        rows
    }
}

} // verus!
