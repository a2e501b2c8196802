//! Snapshots: the point in a volume's history that a reader is pinned to.

use vstd::prelude::*;

use crate::codec::{
    get_le, le_bytes, le_value, lemma_le_bytes_len, lemma_le_bytes_of_value,
    lemma_le_value_of_bytes, lemma_pow256_values, put_le,
};
use crate::error::LayoutErr;

verus! {

/// Number of bytes in a stored snapshot.
pub const SNAPSHOT_SIZE: usize = 21;

/// The first log sequence number of a volume. Zero is no sequence number:
/// it stands for "none" where a stored field has to hold something.
pub const FIRST_LSN: u64 = 1;

/// The number that stands for an optional sequence number when it is
/// compared: an absent one comes before every present one.
pub open spec fn lsn_or_zero(lsn: Option<u64>) -> nat {
    match lsn {
        Some(lsn) => lsn as nat,
        None => 0,
    }
}

/// Whether an optional sequence number, where present, is at least the
/// first one.
pub open spec fn lsn_valid(lsn: Option<u64>) -> bool {
    lsn matches Some(lsn) ==> lsn >= FIRST_LSN
}

/// The state of a volume at one local sequence number: that number, the
/// remote sequence number it corresponds to if any, and the page count.
#[derive(Clone, Copy, Debug, PartialEq, Eq, Structural)]
pub struct Snapshot {
    pub local: u64,
    pub remote: Option<u64>,
    pub pages: u32,
}

impl Snapshot {
    /// Whether both sequence numbers are real ones.
    pub open spec fn wf(self) -> bool {
        self.local >= FIRST_LSN && lsn_valid(self.remote)
    }

    /// The stored form: `local`, `remote` (zero when absent) and `pages`,
    /// little-endian, then one byte that tells whether `remote` is present.
    pub open spec fn bytes(self) -> Seq<u8> {
        le_bytes(self.local as nat, 8) + le_bytes(lsn_or_zero(self.remote), 8) + le_bytes(
            self.pages as nat,
            4,
        ) + seq![if self.remote is Some { 1u8 } else { 0u8 }]
    }

    /// What a stored snapshot holds, or why it is not one.
    pub open spec fn parse(bytes: Seq<u8>) -> Result<Snapshot, LayoutErr> {
        if bytes.len() != SNAPSHOT_SIZE {
            Err(LayoutErr::InvalidSize)
        } else {
            let local = le_value(bytes.subrange(0, 8));
            let remote = le_value(bytes.subrange(8, 16));
            let pages = le_value(bytes.subrange(16, 20));
            let present = bytes[20];
            if local == 0 || present > 1 || (present == 1) != (remote != 0) {
                Err(LayoutErr::InvalidData)
            } else {
                Ok(
                    Snapshot {
                        local: local as u64,
                        remote: if present == 1 {
                            Some(remote as u64)
                        } else {
                            None
                        },
                        pages: pages as u32,
                    },
                )
            }
        }
    }

    /// The snapshot at the local sequence number `local`.
    pub fn new(local: u64, remote: Option<u64>, pages: u32) -> (snapshot: Snapshot)
        requires
            local >= FIRST_LSN,
            lsn_valid(remote),
        ensures
            snapshot == (Snapshot { local, remote, pages }),
            snapshot.wf(),
    {
        Snapshot { local, remote, pages }
    }

    /// The local sequence number.
    pub fn local(&self) -> (lsn: u64)
        ensures
            lsn == self.local,
    {
        self.local
    }

    /// The remote sequence number, if the volume has been synced.
    pub fn remote(&self) -> (lsn: Option<u64>)
        ensures
            lsn == self.remote,
    {
        self.remote
    }

    /// The number of pages in the volume.
    pub fn pages(&self) -> (pages: u32)
        ensures
            pages == self.pages,
    {
        self.pages
    }

    /// Writes the stored form.
    pub fn to_bytes(&self) -> (bytes: Vec<u8>)
        ensures
            bytes@ == self.bytes(),
    {
        let mut bytes: Vec<u8> = Vec::new();
        put_le(&mut bytes, self.local, 8);
        let (remote, present): (u64, u8) = match self.remote {
            Some(remote) => (remote, 1),
            None => (0, 0),
        };
        put_le(&mut bytes, remote, 8);
        put_le(&mut bytes, self.pages as u64, 4);
        bytes.push(present);
        assert(bytes@ =~= self.bytes());
        bytes
    }

    /// Reads a stored snapshot.
    pub fn from_bytes(bytes: &[u8]) -> (parsed: Result<Snapshot, LayoutErr>)
        ensures
            parsed == Snapshot::parse(bytes@),
    {
        if bytes.len() != SNAPSHOT_SIZE {
            return Err(LayoutErr::InvalidSize);
        }
        let local = get_le(bytes, 0, 8);
        let remote = get_le(bytes, 8, 8);
        let pages = get_le(bytes, 16, 4);
        let present = bytes[20];
        proof {
            lemma_le_bytes_of_value(bytes@.subrange(16, 20));
            lemma_pow256_values();
        }
        if local == 0 || present > 1 || (present == 1) != (remote != 0) {
            return Err(LayoutErr::InvalidData);
        }
        Ok(
            Snapshot {
                local,
                remote: if present == 1 {
                    Some(remote)
                } else {
                    None
                },
                pages: pages as u32,
            },
        )
    }

    /// A well-formed snapshot is read back from its stored form.
    pub proof fn lemma_parse_bytes(self)
        requires
            self.wf(),
        ensures
            self.bytes().len() == SNAPSHOT_SIZE,
            Snapshot::parse(self.bytes()) == Ok::<Snapshot, LayoutErr>(self),
    {
        let bytes = self.bytes();
        lemma_le_bytes_len(self.local as nat, 8);
        lemma_le_bytes_len(lsn_or_zero(self.remote), 8);
        lemma_le_bytes_len(self.pages as nat, 4);
        lemma_pow256_values();
        lemma_le_value_of_bytes(self.local as nat, 8);
        lemma_le_value_of_bytes(lsn_or_zero(self.remote), 8);
        lemma_le_value_of_bytes(self.pages as nat, 4);
        assert(bytes.subrange(0, 8) =~= le_bytes(self.local as nat, 8));
        assert(bytes.subrange(8, 16) =~= le_bytes(lsn_or_zero(self.remote), 8));
        assert(bytes.subrange(16, 20) =~= le_bytes(self.pages as nat, 4));
    }

    /// Bytes that are read as a snapshot are the stored form of that
    /// snapshot, which is well-formed.
    pub proof fn lemma_bytes_parse(bytes: Seq<u8>)
        requires
            Snapshot::parse(bytes) is Ok,
        ensures
            Snapshot::parse(bytes)->Ok_0.wf(),
            Snapshot::parse(bytes)->Ok_0.bytes() == bytes,
    {
        let snapshot = Snapshot::parse(bytes)->Ok_0;
        lemma_le_bytes_of_value(bytes.subrange(0, 8));
        lemma_le_bytes_of_value(bytes.subrange(8, 16));
        lemma_le_bytes_of_value(bytes.subrange(16, 20));
        lemma_pow256_values();
        assert(snapshot.bytes() =~= bytes.subrange(0, 8) + bytes.subrange(8, 16) + bytes.subrange(
            16,
            20,
        ) + seq![bytes[20]]);
        assert(snapshot.bytes() =~= bytes);
    }
}

} // verus!
