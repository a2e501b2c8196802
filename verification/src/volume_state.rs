//! The tagged state rows of a volume: configuration, snapshot, sync
//! watermarks and status.

use vstd::prelude::*;

use crate::codec::{
    get_le, le_bytes, le_value, lemma_le_bytes_len, lemma_le_bytes_of_value,
    lemma_le_value_of_bytes, lemma_pow256_values, put_le,
};
use crate::error::{LayoutErr, StorageErr};
use crate::snapshot::{lsn_or_zero, lsn_valid, Snapshot};
use crate::volume_id::VolumeId;

verus! {

/// Number of bytes in stored watermarks.
pub const WATERMARKS_SIZE: usize = 17;

/// Which of a volume's state rows a key names.
#[derive(Clone, Copy, Debug, PartialEq, Eq, Structural)]
pub enum VolumeStateTag {
    Config,
    Snapshot,
    Watermarks,
    Status,
}

impl VolumeStateTag {
    /// The byte that ends the key of this row.
    pub open spec fn byte(self) -> u8 {
        match self {
            VolumeStateTag::Config => 1,
            VolumeStateTag::Snapshot => 2,
            VolumeStateTag::Watermarks => 3,
            VolumeStateTag::Status => 4,
        }
    }

    /// The tag that a key's last byte names, if it names one.
    pub open spec fn parse(byte: u8) -> Option<VolumeStateTag> {
        if byte == 1 {
            Some(VolumeStateTag::Config)
        } else if byte == 2 {
            Some(VolumeStateTag::Snapshot)
        } else if byte == 3 {
            Some(VolumeStateTag::Watermarks)
        } else if byte == 4 {
            Some(VolumeStateTag::Status)
        } else {
            None
        }
    }

    /// The byte that ends the key of this row.
    pub fn to_byte(self) -> (byte: u8)
        ensures
            byte == self.byte(),
            VolumeStateTag::parse(byte) == Some(self),
    {
        match self {
            VolumeStateTag::Config => 1,
            VolumeStateTag::Snapshot => 2,
            VolumeStateTag::Watermarks => 3,
            VolumeStateTag::Status => 4,
        }
    }

    /// The tag that a key's last byte names, if it names one.
    pub fn from_byte(byte: u8) -> (tag: Option<VolumeStateTag>)
        ensures
            tag == VolumeStateTag::parse(byte),
            tag matches Some(t) ==> t.byte() == byte,
    {
        if byte == 1 {
            Some(VolumeStateTag::Config)
        } else if byte == 2 {
            Some(VolumeStateTag::Snapshot)
        } else if byte == 3 {
            Some(VolumeStateTag::Watermarks)
        } else if byte == 4 {
            Some(VolumeStateTag::Status)
        } else {
            None
        }
    }
}

/// In which directions a volume is synced with the remote.
#[derive(Clone, Copy, Debug, PartialEq, Eq, Structural)]
pub enum SyncDirection {
    Disabled,
    Push,
    Pull,
    Both,
}

impl SyncDirection {
    /// Whether the direction includes pushing local commits.
    pub open spec fn pushes(self) -> bool {
        self == SyncDirection::Push || self == SyncDirection::Both
    }

    /// Whether the direction includes pulling remote commits.
    pub open spec fn pulls(self) -> bool {
        self == SyncDirection::Pull || self == SyncDirection::Both
    }

    /// Two directions match when they are equal or share a direction.
    pub open spec fn spec_matches(self, other: SyncDirection) -> bool {
        self == other || (self.pushes() && other.pushes()) || (self.pulls() && other.pulls())
    }

    /// The stored byte.
    pub open spec fn byte(self) -> u8 {
        match self {
            SyncDirection::Disabled => 0,
            SyncDirection::Push => 1,
            SyncDirection::Pull => 2,
            SyncDirection::Both => 3,
        }
    }

    /// Whether this direction matches the direction asked for.
    pub fn matches(self, other: SyncDirection) -> (matched: bool)
        ensures
            matched == self.spec_matches(other),
    {
        match (self, other) {
            (SyncDirection::Disabled, SyncDirection::Disabled) => true,
            (SyncDirection::Disabled, _) => false,
            (_, SyncDirection::Disabled) => false,
            (SyncDirection::Both, _) => true,
            (_, SyncDirection::Both) => true,
            (SyncDirection::Push, SyncDirection::Push) => true,
            (SyncDirection::Pull, SyncDirection::Pull) => true,
            (SyncDirection::Push, SyncDirection::Pull) => false,
            (SyncDirection::Pull, SyncDirection::Push) => false,
        }
    }
}

/// The configuration of a volume.
#[derive(Clone, Copy, Debug, PartialEq, Eq, Structural)]
pub struct VolumeConfig {
    pub sync: SyncDirection,
}

impl VolumeConfig {
    /// The stored form: the byte of the sync direction.
    pub open spec fn bytes(self) -> Seq<u8> {
        seq![self.sync.byte()]
    }

    /// What a stored configuration holds, or why it is not one.
    pub open spec fn parse(bytes: Seq<u8>) -> Result<VolumeConfig, LayoutErr> {
        if bytes.len() != 1 {
            Err(LayoutErr::InvalidSize)
        } else if bytes[0] == 0 {
            Ok(VolumeConfig { sync: SyncDirection::Disabled })
        } else if bytes[0] == 1 {
            Ok(VolumeConfig { sync: SyncDirection::Push })
        } else if bytes[0] == 2 {
            Ok(VolumeConfig { sync: SyncDirection::Pull })
        } else if bytes[0] == 3 {
            Ok(VolumeConfig { sync: SyncDirection::Both })
        } else {
            Err(LayoutErr::InvalidData)
        }
    }

    /// The configuration of a volume that has none stored: no sync.
    pub open spec fn spec_default() -> VolumeConfig {
        VolumeConfig { sync: SyncDirection::Disabled }
    }

    /// A configuration is read back from its stored form.
    pub proof fn lemma_round_trip(self)
        ensures
            VolumeConfig::parse(self.bytes()) == Ok::<VolumeConfig, LayoutErr>(self),
    {
    }

    /// The configuration with the sync direction `sync`.
    pub fn new(sync: SyncDirection) -> (config: VolumeConfig)
        ensures
            config == (VolumeConfig { sync }),
    {
        VolumeConfig { sync }
    }

    /// The sync direction.
    pub fn sync(&self) -> (sync: SyncDirection)
        ensures
            sync == self.sync,
    {
        self.sync
    }

    /// Writes the stored form.
    pub fn to_bytes(&self) -> (bytes: Vec<u8>)
        ensures
            bytes@ == self.bytes(),
            VolumeConfig::parse(bytes@) == Ok::<VolumeConfig, LayoutErr>(*self),
    {
        let byte: u8 = match self.sync {
            SyncDirection::Disabled => 0,
            SyncDirection::Push => 1,
            SyncDirection::Pull => 2,
            SyncDirection::Both => 3,
        };
        let mut bytes: Vec<u8> = Vec::new();
        bytes.push(byte);
        assert(bytes@ =~= self.bytes());
        bytes
    }

    /// Reads a stored configuration.
    pub fn from_bytes(bytes: &[u8]) -> (parsed: Result<VolumeConfig, LayoutErr>)
        ensures
            parsed == VolumeConfig::parse(bytes@),
            parsed matches Ok(config) ==> config.bytes() == bytes@,
    {
        if bytes.len() != 1 {
            return Err(LayoutErr::InvalidSize);
        }
        let sync = if bytes[0] == 0 {
            SyncDirection::Disabled
        } else if bytes[0] == 1 {
            SyncDirection::Push
        } else if bytes[0] == 2 {
            SyncDirection::Pull
        } else if bytes[0] == 3 {
            SyncDirection::Both
        } else {
            return Err(LayoutErr::InvalidData);
        };
        assert(seq![bytes@[0]] =~= bytes@);
        Ok(VolumeConfig { sync })
    }
}

impl Default for VolumeConfig {
    fn default() -> (config: VolumeConfig)
        ensures
            config == VolumeConfig::spec_default(),
    {
        VolumeConfig { sync: SyncDirection::Disabled }
    }
}

/// Whether a volume can take part in sync.
#[derive(Clone, Copy, Debug, PartialEq, Eq, Structural)]
pub enum VolumeStatus {
    /// Nothing stands in the way of sync.
    Okay,
    /// A remote commit arrived while local commits were unsent.
    Conflict,
    /// The remote rejected a pushed commit.
    RejectedCommit,
}

impl VolumeStatus {
    /// The stored form: one byte.
    pub open spec fn bytes(self) -> Seq<u8> {
        seq![
            match self {
                VolumeStatus::Okay => 0u8,
                VolumeStatus::Conflict => 1u8,
                VolumeStatus::RejectedCommit => 2u8,
            },
        ]
    }

    /// What a stored status holds, or why it is not one.
    pub open spec fn parse(bytes: Seq<u8>) -> Result<VolumeStatus, LayoutErr> {
        if bytes.len() != 1 {
            Err(LayoutErr::InvalidSize)
        } else if bytes[0] == 0 {
            Ok(VolumeStatus::Okay)
        } else if bytes[0] == 1 {
            Ok(VolumeStatus::Conflict)
        } else if bytes[0] == 2 {
            Ok(VolumeStatus::RejectedCommit)
        } else {
            Err(LayoutErr::InvalidData)
        }
    }

    /// A status is read back from its stored form.
    pub proof fn lemma_round_trip(self)
        ensures
            VolumeStatus::parse(self.bytes()) == Ok::<VolumeStatus, LayoutErr>(self),
    {
    }

    /// Writes the stored form.
    pub fn to_bytes(&self) -> (bytes: Vec<u8>)
        ensures
            bytes@ == self.bytes(),
            VolumeStatus::parse(bytes@) == Ok::<VolumeStatus, LayoutErr>(*self),
    {
        let byte: u8 = match self {
            VolumeStatus::Okay => 0,
            VolumeStatus::Conflict => 1,
            VolumeStatus::RejectedCommit => 2,
        };
        let mut bytes: Vec<u8> = Vec::new();
        bytes.push(byte);
        assert(bytes@ =~= self.bytes());
        bytes
    }

    /// Reads a stored status.
    pub fn from_bytes(bytes: &[u8]) -> (parsed: Result<VolumeStatus, LayoutErr>)
        ensures
            parsed == VolumeStatus::parse(bytes@),
            parsed matches Ok(status) ==> status.bytes() == bytes@,
    {
        if bytes.len() != 1 {
            return Err(LayoutErr::InvalidSize);
        }
        let status = if bytes[0] == 0 {
            VolumeStatus::Okay
        } else if bytes[0] == 1 {
            VolumeStatus::Conflict
        } else if bytes[0] == 2 {
            VolumeStatus::RejectedCommit
        } else {
            return Err(LayoutErr::InvalidData);
        };
        assert(seq![bytes@[0]] =~= bytes@);
        Ok(status)
    }
}

/// How far a volume's local commits have been pushed: `last_sync` is the
/// last local sequence number that the remote holds, `pending_sync` the one
/// that a push in flight will reach.
#[derive(Clone, Copy, Debug, PartialEq, Eq, Structural)]
pub struct Watermarks {
    pub last_sync: Option<u64>,
    pub pending_sync: Option<u64>,
}

impl Watermarks {
    /// Whether the sequence numbers that are present are real ones.
    pub open spec fn wf(self) -> bool {
        lsn_valid(self.last_sync) && lsn_valid(self.pending_sync)
    }

    /// The watermarks of a volume that has none stored.
    pub open spec fn spec_default() -> Watermarks {
        Watermarks { last_sync: None, pending_sync: None }
    }

    /// The byte that tells which watermarks are present: bit 0 for
    /// `last_sync`, bit 1 for `pending_sync`.
    pub open spec fn flags(self) -> u8 {
        ((if self.last_sync is Some { 1int } else { 0int }) + (if self.pending_sync is Some {
            2int
        } else {
            0int
        })) as u8
    }

    /// The stored form: `last_sync` and `pending_sync` (zero when absent),
    /// little-endian, then the flags.
    pub open spec fn bytes(self) -> Seq<u8> {
        le_bytes(lsn_or_zero(self.last_sync), 8) + le_bytes(lsn_or_zero(self.pending_sync), 8)
            + seq![self.flags()]
    }

    /// What stored watermarks hold, or why the bytes are not watermarks.
    pub open spec fn parse(bytes: Seq<u8>) -> Result<Watermarks, LayoutErr> {
        if bytes.len() != WATERMARKS_SIZE {
            Err(LayoutErr::InvalidSize)
        } else {
            let last = le_value(bytes.subrange(0, 8));
            let pending = le_value(bytes.subrange(8, 16));
            let flags = bytes[16];
            if flags > 3 || (flags % 2 == 1) != (last != 0) || (flags / 2 == 1) != (pending != 0) {
                Err(LayoutErr::InvalidData)
            } else {
                Ok(
                    Watermarks {
                        last_sync: if flags % 2 == 1 {
                            Some(last as u64)
                        } else {
                            None
                        },
                        pending_sync: if flags / 2 == 1 {
                            Some(pending as u64)
                        } else {
                            None
                        },
                    },
                )
            }
        }
    }

    /// The last local sequence number that the remote holds.
    pub fn last_sync(&self) -> (lsn: Option<u64>)
        ensures
            lsn == self.last_sync,
    {
        self.last_sync
    }

    /// The local sequence number that a push in flight will reach.
    pub fn pending_sync(&self) -> (lsn: Option<u64>)
        ensures
            lsn == self.pending_sync,
    {
        self.pending_sync
    }

    /// These watermarks with `last_sync` set to `lsn`.
    pub fn with_last_sync(self, lsn: u64) -> (watermarks: Watermarks)
        ensures
            watermarks == (Watermarks { last_sync: Some(lsn), pending_sync: self.pending_sync }),
    {
        Watermarks { last_sync: Some(lsn), pending_sync: self.pending_sync }
    }

    /// These watermarks with `pending_sync` set to `lsn`.
    pub fn with_pending_sync(self, lsn: u64) -> (watermarks: Watermarks)
        ensures
            watermarks == (Watermarks { last_sync: self.last_sync, pending_sync: Some(lsn) }),
    {
        Watermarks { last_sync: self.last_sync, pending_sync: Some(lsn) }
    }

    /// These watermarks after a push was given up: `pending_sync` goes back
    /// to `last_sync`.
    pub fn rollback_pending_sync(self) -> (watermarks: Watermarks)
        ensures
            watermarks == (Watermarks { last_sync: self.last_sync, pending_sync: self.last_sync }),
    {
        Watermarks { last_sync: self.last_sync, pending_sync: self.last_sync }
    }

    /// These watermarks after a push went through: `last_sync` takes the
    /// value of `pending_sync`, and no push is pending.
    pub fn commit_pending_sync(self) -> (watermarks: Watermarks)
        ensures
            watermarks == (Watermarks { last_sync: self.pending_sync, pending_sync: None }),
    {
        Watermarks { last_sync: self.pending_sync, pending_sync: None }
    }

    /// Writes the stored form.
    pub fn to_bytes(&self) -> (bytes: Vec<u8>)
        ensures
            bytes@ == self.bytes(),
    {
        let mut bytes: Vec<u8> = Vec::new();
        let (last, last_flag): (u64, u8) = match self.last_sync {
            Some(lsn) => (lsn, 1),
            None => (0, 0),
        };
        let (pending, pending_flag): (u64, u8) = match self.pending_sync {
            Some(lsn) => (lsn, 2),
            None => (0, 0),
        };
        put_le(&mut bytes, last, 8);
        put_le(&mut bytes, pending, 8);
        bytes.push(last_flag + pending_flag);
        assert(bytes@ =~= self.bytes());
        bytes
    }

    /// Reads stored watermarks.
    pub fn from_bytes(bytes: &[u8]) -> (parsed: Result<Watermarks, LayoutErr>)
        ensures
            parsed == Watermarks::parse(bytes@),
    {
        if bytes.len() != WATERMARKS_SIZE {
            return Err(LayoutErr::InvalidSize);
        }
        let last = get_le(bytes, 0, 8);
        let pending = get_le(bytes, 8, 8);
        let flags = bytes[16];
        if flags > 3 || (flags % 2 == 1) != (last != 0) || (flags / 2 == 1) != (pending != 0) {
            return Err(LayoutErr::InvalidData);
        }
        Ok(
            Watermarks {
                last_sync: if flags % 2 == 1 {
                    Some(last)
                } else {
                    None
                },
                pending_sync: if flags / 2 == 1 {
                    Some(pending)
                } else {
                    None
                },
            },
        )
    }

    /// Well-formed watermarks are read back from their stored form.
    pub proof fn lemma_parse_bytes(self)
        requires
            self.wf(),
        ensures
            self.bytes().len() == WATERMARKS_SIZE,
            Watermarks::parse(self.bytes()) == Ok::<Watermarks, LayoutErr>(self),
    {
        let bytes = self.bytes();
        lemma_le_bytes_len(lsn_or_zero(self.last_sync), 8);
        lemma_le_bytes_len(lsn_or_zero(self.pending_sync), 8);
        lemma_pow256_values();
        lemma_le_value_of_bytes(lsn_or_zero(self.last_sync), 8);
        lemma_le_value_of_bytes(lsn_or_zero(self.pending_sync), 8);
        assert(bytes.subrange(0, 8) =~= le_bytes(lsn_or_zero(self.last_sync), 8));
        assert(bytes.subrange(8, 16) =~= le_bytes(lsn_or_zero(self.pending_sync), 8));
    }

    /// Bytes that are read as watermarks are the stored form of those
    /// watermarks, which are well-formed.
    pub proof fn lemma_bytes_parse(bytes: Seq<u8>)
        requires
            Watermarks::parse(bytes) is Ok,
        ensures
            Watermarks::parse(bytes)->Ok_0.wf(),
            Watermarks::parse(bytes)->Ok_0.bytes() == bytes,
    {
        let watermarks = Watermarks::parse(bytes)->Ok_0;
        lemma_le_bytes_of_value(bytes.subrange(0, 8));
        lemma_le_bytes_of_value(bytes.subrange(8, 16));
        lemma_pow256_values();
        assert(watermarks.bytes() =~= bytes.subrange(0, 8) + bytes.subrange(8, 16) + seq![
            bytes[16],
        ]);
        assert(watermarks.bytes() =~= bytes);
    }
}

impl Default for Watermarks {
    fn default() -> (watermarks: Watermarks)
        ensures
            watermarks == Watermarks::spec_default(),
    {
        Watermarks { last_sync: None, pending_sync: None }
    }
}

/// Everything the tagged rows say of one volume. A row that is absent has
/// its default: no sync, no snapshot, no watermarks, status `Okay`.
#[derive(Clone, Copy, Debug, PartialEq, Eq, Structural)]
pub struct VolumeState {
    pub vid: VolumeId,
    pub config: VolumeConfig,
    pub snapshot: Option<Snapshot>,
    pub watermarks: Watermarks,
    pub status: VolumeStatus,
}

/// The local sequence number of an optional snapshot.
pub open spec fn local_lsn(snapshot: Option<Snapshot>) -> Option<u64> {
    match snapshot {
        Some(snapshot) => Some(snapshot.local),
        None => None,
    }
}

impl VolumeState {
    /// Whether the snapshot and the watermarks hold real sequence numbers.
    pub open spec fn wf(self) -> bool {
        (self.snapshot matches Some(snapshot) ==> snapshot.wf()) && self.watermarks.wf()
    }

    /// The state of a volume of which nothing is stored.
    pub open spec fn spec_new(vid: VolumeId) -> VolumeState {
        VolumeState {
            vid,
            config: VolumeConfig::spec_default(),
            snapshot: None,
            watermarks: Watermarks::spec_default(),
            status: VolumeStatus::Okay,
        }
    }

    /// Whether local commits exist that the remote does not hold: the local
    /// sequence number is past `last_sync`.
    pub open spec fn spec_has_pending_commits(self) -> bool {
        lsn_or_zero(local_lsn(self.snapshot)) > lsn_or_zero(self.watermarks.last_sync)
    }

    /// Whether a push is in flight: `pending_sync` is past `last_sync`.
    pub open spec fn spec_is_syncing(self) -> bool {
        lsn_or_zero(self.watermarks.pending_sync) > lsn_or_zero(self.watermarks.last_sync)
    }

    /// Whether the last push neither completed nor was rolled back.
    pub open spec fn spec_needs_recovery(self) -> bool {
        self.spec_is_syncing() && self.status != VolumeStatus::Okay
    }

    /// The state after the row `tag` was read with the value `bytes`, or
    /// the error that the value gives: that of a corrupt configuration, of
    /// a corrupt snapshot, or of corrupt state under the tag of the row.
    pub open spec fn accumulated(self, tag: VolumeStateTag, bytes: Seq<u8>) -> Result<
        VolumeState,
        StorageErr,
    > {
        match tag {
            VolumeStateTag::Config => match VolumeConfig::parse(bytes) {
                Ok(config) => Ok(VolumeState { config, ..self }),
                Err(err) => Err(StorageErr::CorruptVolumeConfig(err)),
            },
            VolumeStateTag::Snapshot => match Snapshot::parse(bytes) {
                Ok(snapshot) => Ok(VolumeState { snapshot: Some(snapshot), ..self }),
                Err(err) => Err(StorageErr::CorruptSnapshot(err)),
            },
            VolumeStateTag::Watermarks => match Watermarks::parse(bytes) {
                Ok(watermarks) => Ok(VolumeState { watermarks, ..self }),
                Err(err) => Err(StorageErr::CorruptVolumeState(tag, err)),
            },
            VolumeStateTag::Status => match VolumeStatus::parse(bytes) {
                Ok(status) => Ok(VolumeState { status, ..self }),
                Err(err) => Err(StorageErr::CorruptVolumeState(tag, err)),
            },
        }
    }

    /// The state of a volume of which nothing is stored.
    pub fn new(vid: VolumeId) -> (state: VolumeState)
        ensures
            state == VolumeState::spec_new(vid),
            state.wf(),
    {
        VolumeState {
            vid,
            config: VolumeConfig { sync: SyncDirection::Disabled },
            snapshot: None,
            watermarks: Watermarks { last_sync: None, pending_sync: None },
            status: VolumeStatus::Okay,
        }
    }

    /// Takes in one stored row of the volume. On an error the state is
    /// left as it was.
    pub fn accumulate(&mut self, tag: VolumeStateTag, value: &[u8]) -> (taken: Result<
        (),
        StorageErr,
    >)
        ensures
            match old(self).accumulated(tag, value@) {
                Ok(state) => taken is Ok && *final(self) == state,
                Err(err) => taken == Err::<(), StorageErr>(err) && *final(self) == *old(self),
            },
            old(self).wf() ==> final(self).wf(),
    {
        match tag {
            VolumeStateTag::Config => match VolumeConfig::from_bytes(value) {
                Ok(config) => {
                    self.config = config;
                    Ok(())
                },
                Err(err) => Err(StorageErr::CorruptVolumeConfig(err)),
            },
            VolumeStateTag::Snapshot => match Snapshot::from_bytes(value) {
                Ok(snapshot) => {
                    proof {
                        Snapshot::lemma_bytes_parse(value@);
                    }
                    self.snapshot = Some(snapshot);
                    Ok(())
                },
                Err(err) => Err(StorageErr::CorruptSnapshot(err)),
            },
            VolumeStateTag::Watermarks => match Watermarks::from_bytes(value) {
                Ok(watermarks) => {
                    proof {
                        Watermarks::lemma_bytes_parse(value@);
                    }
                    self.watermarks = watermarks;
                    Ok(())
                },
                Err(err) => Err(StorageErr::CorruptVolumeState(tag, err)),
            },
            VolumeStateTag::Status => match VolumeStatus::from_bytes(value) {
                Ok(status) => {
                    self.status = status;
                    Ok(())
                },
                Err(err) => Err(StorageErr::CorruptVolumeState(tag, err)),
            },
        }
    }

    /// The volume that this state is of.
    pub fn vid(&self) -> (vid: &VolumeId)
        ensures
            *vid == self.vid,
    {
        &self.vid
    }

    /// The configuration of the volume.
    pub fn config(&self) -> (config: &VolumeConfig)
        ensures
            *config == self.config,
    {
        &self.config
    }

    /// The latest snapshot of the volume, if it has one.
    pub fn snapshot(&self) -> (snapshot: Option<&Snapshot>)
        ensures
            snapshot is Some <==> self.snapshot is Some,
            snapshot matches Some(s) ==> Some(*s) == self.snapshot,
    {
        self.snapshot.as_ref()
    }

    /// The sync watermarks of the volume.
    pub fn watermarks(&self) -> (watermarks: &Watermarks)
        ensures
            *watermarks == self.watermarks,
    {
        &self.watermarks
    }

    /// The status of the volume.
    pub fn status(&self) -> (status: VolumeStatus)
        ensures
            status == self.status,
    {
        self.status
    }

    /// Whether local commits exist that the remote does not hold.
    pub fn has_pending_commits(&self) -> (pending: bool)
        ensures
            pending == self.spec_has_pending_commits(),
    {
        let local: u64 = match self.snapshot {
            Some(snapshot) => snapshot.local,
            None => 0,
        };
        let last: u64 = match self.watermarks.last_sync {
            Some(lsn) => lsn,
            None => 0,
        };
        local > last
    }

    /// Whether a push is in flight.
    pub fn is_syncing(&self) -> (syncing: bool)
        ensures
            syncing == self.spec_is_syncing(),
    {
        let pending: u64 = match self.watermarks.pending_sync {
            Some(lsn) => lsn,
            None => 0,
        };
        let last: u64 = match self.watermarks.last_sync {
            Some(lsn) => lsn,
            None => 0,
        };
        pending > last
    }

    /// Whether the last push neither completed nor was rolled back.
    pub fn needs_recovery(&self) -> (needed: bool)
        ensures
            needed == self.spec_needs_recovery(),
    {
        let ok = match self.status {
            VolumeStatus::Okay => true,
            _ => false,
        };
        self.is_syncing() && !ok
    }
}

} // verus!
