//! The keys of the three partitions.
//!
//! Every key starts with the 16 bytes of its volume, so that a prefix scan
//! finds a volume's rows. Numeric fields follow most significant byte
//! first, so that keys sort by volume, then offset, then sequence number.

use vstd::prelude::*;

use crate::codec::{
    be_bytes, be_value, get_be, lemma_be_bytes_len, lemma_be_bytes_of_value, lemma_be_order,
    lemma_be_value_of_bytes, lemma_lex_le_concat, lemma_pow256_values, lex_le, put_be,
};
use crate::error::LayoutErr;
use crate::snapshot::FIRST_LSN;
use crate::volume_id::{VolumeId, VOLUME_ID_SIZE};
use crate::volume_state::VolumeStateTag;

verus! {

/// Number of bytes in the key of a volume state row.
pub const VOLUME_STATE_KEY_SIZE: usize = 17;

/// Number of bytes in the key of a page.
pub const PAGE_KEY_SIZE: usize = 28;

/// Number of bytes in the key of a commit.
pub const COMMIT_KEY_SIZE: usize = 24;

/// The volume whose 16 bytes start `bytes`.
pub open spec fn vid_of(bytes: Seq<u8>) -> VolumeId {
    VolumeId { hi: be_value(bytes.subrange(0, 8)) as u64, lo: be_value(bytes.subrange(8, 16)) as u64 }
}

/// The bytes of a volume identifier name that identifier.
pub proof fn lemma_vid_of(vid: VolumeId, rest: Seq<u8>)
    ensures
        vid_of(vid@ + rest) == vid,
        vid@.len() == VOLUME_ID_SIZE,
{
    lemma_be_bytes_len(vid.hi as nat, 8);
    lemma_be_bytes_len(vid.lo as nat, 8);
    lemma_pow256_values();
    lemma_be_value_of_bytes(vid.hi as nat, 8);
    lemma_be_value_of_bytes(vid.lo as nat, 8);
    assert((vid@ + rest).subrange(0, 8) =~= be_bytes(vid.hi as nat, 8));
    assert((vid@ + rest).subrange(8, 16) =~= be_bytes(vid.lo as nat, 8));
}

/// Sixteen bytes are the bytes of the identifier that they name.
pub proof fn lemma_vid_of_bytes(bytes: Seq<u8>)
    requires
        bytes.len() >= VOLUME_ID_SIZE,
    ensures
        vid_of(bytes)@ == bytes.subrange(0, VOLUME_ID_SIZE as int),
{
    lemma_be_bytes_of_value(bytes.subrange(0, 8));
    lemma_be_bytes_of_value(bytes.subrange(8, 16));
    lemma_pow256_values();
    assert(vid_of(bytes)@ =~= bytes.subrange(0, VOLUME_ID_SIZE as int));
}

/// A scan of the keys that start with a volume's bytes finds the keys of
/// that volume: bytes that start with the 16 bytes of a volume name that
/// volume and no other.
pub proof fn law_prefix_scan(vid: VolumeId, key: Seq<u8>)
    requires
        key.len() >= VOLUME_ID_SIZE,
    ensures
        key.subrange(0, VOLUME_ID_SIZE as int) == vid@ <==> vid_of(key) == vid,
{
    lemma_vid_of_bytes(key);
    VolumeId::lemma_view(vid_of(key), vid);
}

/// The key of one of a volume's state rows.
#[derive(Clone, Copy, Debug, PartialEq, Eq, Structural)]
pub struct VolumeStateKey {
    pub vid: VolumeId,
    pub tag: VolumeStateTag,
}

impl VolumeStateKey {
    /// The stored form: the volume, then the tag's byte.
    pub open spec fn bytes(self) -> Seq<u8> {
        self.vid@ + seq![self.tag.byte()]
    }

    /// What a stored key names, or why it is not the key of a state row.
    pub open spec fn parse(bytes: Seq<u8>) -> Result<VolumeStateKey, LayoutErr> {
        if bytes.len() != VOLUME_STATE_KEY_SIZE {
            Err(LayoutErr::InvalidSize)
        } else {
            match VolumeStateTag::parse(bytes[16]) {
                Some(tag) => Ok(VolumeStateKey { vid: vid_of(bytes), tag }),
                None => Err(LayoutErr::InvalidData),
            }
        }
    }

    /// The key of the row `tag` of the volume `vid`.
    pub fn new(vid: VolumeId, tag: VolumeStateTag) -> (key: VolumeStateKey)
        ensures
            key == (VolumeStateKey { vid, tag }),
    {
        VolumeStateKey { vid, tag }
    }

    /// The volume of the row.
    pub fn vid(&self) -> (vid: &VolumeId)
        ensures
            *vid == self.vid,
    {
        &self.vid
    }

    /// Which row of the volume the key names.
    pub fn tag(&self) -> (tag: VolumeStateTag)
        ensures
            tag == self.tag,
    {
        self.tag
    }

    /// Writes the stored form.
    pub fn to_bytes(&self) -> (bytes: Vec<u8>)
        ensures
            bytes@ == self.bytes(),
    {
        let mut bytes = self.vid.to_bytes();
        bytes.push(self.tag.to_byte());
        assert(bytes@ =~= self.bytes());
        bytes
    }

    /// Reads a stored key.
    pub fn from_bytes(bytes: &[u8]) -> (parsed: Result<VolumeStateKey, LayoutErr>)
        ensures
            parsed == VolumeStateKey::parse(bytes@),
    {
        if bytes.len() != VOLUME_STATE_KEY_SIZE {
            return Err(LayoutErr::InvalidSize);
        }
        match VolumeStateTag::from_byte(bytes[16]) {
            Some(tag) => {
                let vid = VolumeId::read_at(bytes, 0);
                proof {
                    lemma_vid_of_bytes(bytes@);
                    VolumeId::lemma_view(vid, vid_of(bytes@));
                }
                Ok(VolumeStateKey { vid, tag })
            },
            None => Err(LayoutErr::InvalidData),
        }
    }

    /// A key is read back from its stored form, and bytes that are read
    /// as a key are the stored form of that key.
    pub proof fn lemma_round_trip(self, bytes: Seq<u8>)
        ensures
            self.bytes().len() == VOLUME_STATE_KEY_SIZE,
            VolumeStateKey::parse(self.bytes()) == Ok::<VolumeStateKey, LayoutErr>(self),
            VolumeStateKey::parse(bytes) matches Ok(key) ==> key.bytes() == bytes,
    {
        lemma_vid_of(self.vid, seq![self.tag.byte()]);
        if VolumeStateKey::parse(bytes) is Ok {
            let key = VolumeStateKey::parse(bytes)->Ok_0;
            lemma_vid_of_bytes(bytes);
            assert(key.bytes() =~= bytes);
        }
    }
}

/// The key of a page: a volume, a page offset and a sequence number.
#[derive(Clone, Copy, Debug, PartialEq, Eq, Structural)]
pub struct PageKey {
    pub vid: VolumeId,
    pub offset: u32,
    pub lsn: u64,
}

impl PageKey {
    /// Whether the sequence number is a real one.
    pub open spec fn wf(self) -> bool {
        self.lsn >= FIRST_LSN
    }

    /// The stored form: the volume, the offset in 4 bytes and the sequence
    /// number in 8, both most significant byte first.
    pub open spec fn bytes(self) -> Seq<u8> {
        self.vid@ + be_bytes(self.offset as nat, 4) + be_bytes(self.lsn as nat, 8)
    }

    /// What a stored key names, or why it is not the key of a page.
    pub open spec fn parse(bytes: Seq<u8>) -> Result<PageKey, LayoutErr> {
        if bytes.len() != PAGE_KEY_SIZE {
            Err(LayoutErr::InvalidSize)
        } else if be_value(bytes.subrange(20, 28)) == 0 {
            Err(LayoutErr::InvalidData)
        } else {
            Ok(
                PageKey {
                    vid: vid_of(bytes),
                    offset: be_value(bytes.subrange(16, 20)) as u32,
                    lsn: be_value(bytes.subrange(20, 28)) as u64,
                },
            )
        }
    }

    /// Whether `self` sorts before `other` or equals it: by volume, then
    /// offset, then sequence number.
    pub open spec fn sorts_le(self, other: PageKey) -> bool {
        if self.vid.hi != other.vid.hi {
            self.vid.hi < other.vid.hi
        } else if self.vid.lo != other.vid.lo {
            self.vid.lo < other.vid.lo
        } else if self.offset != other.offset {
            self.offset < other.offset
        } else {
            self.lsn <= other.lsn
        }
    }

    /// The key of the page at `offset` of the volume `vid`, as written at
    /// `lsn`.
    pub fn new(vid: VolumeId, offset: u32, lsn: u64) -> (key: PageKey)
        requires
            lsn >= FIRST_LSN,
        ensures
            key == (PageKey { vid, offset, lsn }),
    {
        PageKey { vid, offset, lsn }
    }

    /// This key at another offset.
    pub fn with_offset(self, offset: u32) -> (key: PageKey)
        ensures
            key == (PageKey { offset, ..self }),
    {
        PageKey { vid: self.vid, offset, lsn: self.lsn }
    }

    /// The volume of the page.
    pub fn vid(&self) -> (vid: &VolumeId)
        ensures
            *vid == self.vid,
    {
        &self.vid
    }

    /// The offset of the page in its volume.
    pub fn offset(&self) -> (offset: u32)
        ensures
            offset == self.offset,
    {
        self.offset
    }

    /// The sequence number at which the page was written.
    pub fn lsn(&self) -> (lsn: u64)
        ensures
            lsn == self.lsn,
    {
        self.lsn
    }

    /// Writes the stored form.
    pub fn to_bytes(&self) -> (bytes: Vec<u8>)
        ensures
            bytes@ == self.bytes(),
    {
        let mut bytes = self.vid.to_bytes();
        put_be(&mut bytes, self.offset as u64, 4);
        put_be(&mut bytes, self.lsn, 8);
        bytes
    }

    /// Reads a stored key.
    pub fn from_bytes(bytes: &[u8]) -> (parsed: Result<PageKey, LayoutErr>)
        ensures
            parsed == PageKey::parse(bytes@),
    {
        if bytes.len() != PAGE_KEY_SIZE {
            return Err(LayoutErr::InvalidSize);
        }
        let lsn = get_be(bytes, 20, 8);
        if lsn == 0 {
            return Err(LayoutErr::InvalidData);
        }
        let offset = get_be(bytes, 16, 4);
        let vid = VolumeId::read_at(bytes, 0);
        proof {
            lemma_vid_of_bytes(bytes@);
            VolumeId::lemma_view(vid, vid_of(bytes@));
            lemma_be_bytes_of_value(bytes@.subrange(16, 20));
            lemma_pow256_values();
        }
        Ok(PageKey { vid, offset: offset as u32, lsn })
    }

    /// A well-formed key is read back from its stored form, and bytes that
    /// are read as a key are the stored form of that key.
    pub proof fn lemma_round_trip(self, bytes: Seq<u8>)
        ensures
            self.bytes().len() == PAGE_KEY_SIZE,
            self.wf() ==> PageKey::parse(self.bytes()) == Ok::<PageKey, LayoutErr>(self),
            PageKey::parse(bytes) matches Ok(key) ==> key.wf() && key.bytes() == bytes,
    {
        let own = self.bytes();
        lemma_vid_of(self.vid, be_bytes(self.offset as nat, 4) + be_bytes(self.lsn as nat, 8));
        lemma_be_bytes_len(self.offset as nat, 4);
        lemma_be_bytes_len(self.lsn as nat, 8);
        lemma_pow256_values();
        lemma_be_value_of_bytes(self.offset as nat, 4);
        lemma_be_value_of_bytes(self.lsn as nat, 8);
        assert(own =~= self.vid@ + (be_bytes(self.offset as nat, 4) + be_bytes(
            self.lsn as nat,
            8,
        )));
        assert(own.subrange(16, 20) =~= be_bytes(self.offset as nat, 4));
        assert(own.subrange(20, 28) =~= be_bytes(self.lsn as nat, 8));
        if PageKey::parse(bytes) is Ok {
            let key = PageKey::parse(bytes)->Ok_0;
            lemma_vid_of_bytes(bytes);
            lemma_be_bytes_of_value(bytes.subrange(16, 20));
            lemma_be_bytes_of_value(bytes.subrange(20, 28));
            assert(key.bytes() =~= bytes);
        }
    }

    /// Comparing the stored forms of two keys byte by byte compares their
    /// volumes, then their offsets, then their sequence numbers.
    pub proof fn lemma_order(self, other: PageKey)
        ensures
            lex_le(self.bytes(), other.bytes()) <==> self.sorts_le(other),
    {
        let (a_hi, a_lo) = (be_bytes(self.vid.hi as nat, 8), be_bytes(self.vid.lo as nat, 8));
        let (b_hi, b_lo) = (be_bytes(other.vid.hi as nat, 8), be_bytes(other.vid.lo as nat, 8));
        let (a_off, a_lsn) = (be_bytes(self.offset as nat, 4), be_bytes(self.lsn as nat, 8));
        let (b_off, b_lsn) = (be_bytes(other.offset as nat, 4), be_bytes(other.lsn as nat, 8));
        lemma_pow256_values();
        lemma_be_bytes_len(self.vid.hi as nat, 8);
        lemma_be_bytes_len(self.vid.lo as nat, 8);
        lemma_be_bytes_len(other.vid.hi as nat, 8);
        lemma_be_bytes_len(other.vid.lo as nat, 8);
        lemma_be_bytes_len(self.offset as nat, 4);
        lemma_be_bytes_len(other.offset as nat, 4);
        lemma_be_bytes_len(self.lsn as nat, 8);
        lemma_be_bytes_len(other.lsn as nat, 8);
        lemma_be_value_of_bytes(self.vid.hi as nat, 8);
        lemma_be_value_of_bytes(self.vid.lo as nat, 8);
        lemma_be_value_of_bytes(other.vid.hi as nat, 8);
        lemma_be_value_of_bytes(other.vid.lo as nat, 8);
        lemma_be_value_of_bytes(self.offset as nat, 4);
        lemma_be_value_of_bytes(other.offset as nat, 4);
        lemma_be_value_of_bytes(self.lsn as nat, 8);
        lemma_be_value_of_bytes(other.lsn as nat, 8);
        lemma_be_order(a_hi, b_hi);
        lemma_be_order(a_lo, b_lo);
        lemma_be_order(a_off, b_off);
        lemma_be_order(a_lsn, b_lsn);
        assert(self.bytes() =~= a_hi + (a_lo + (a_off + a_lsn)));
        assert(other.bytes() =~= b_hi + (b_lo + (b_off + b_lsn)));
        lemma_lex_le_concat(a_hi, a_lo + (a_off + a_lsn), b_hi, b_lo + (b_off + b_lsn));
        lemma_lex_le_concat(a_lo, a_off + a_lsn, b_lo, b_off + b_lsn);
        lemma_lex_le_concat(a_off, a_lsn, b_off, b_lsn);
    }

    /// The keys that lie between the first and the last key of one page
    /// offset are the keys of that offset, whatever their sequence number:
    /// a scan of that range finds the versions of one page, oldest first.
    pub proof fn lemma_range(self, vid: VolumeId, offset: u32, last: u64)
        requires
            self.wf(),
        ensures
            (lex_le((PageKey { vid, offset, lsn: FIRST_LSN }).bytes(), self.bytes()) && lex_le(
                self.bytes(),
                (PageKey { vid, offset, lsn: last }).bytes(),
            )) <==> (self.vid == vid && self.offset == offset && self.lsn <= last),
    {
        (PageKey { vid, offset, lsn: FIRST_LSN }).lemma_order(self);
        self.lemma_order(PageKey { vid, offset, lsn: last });
    }
}

/// The key of a commit: a volume and a sequence number.
#[derive(Clone, Copy, Debug, PartialEq, Eq, Structural)]
pub struct CommitKey {
    pub vid: VolumeId,
    pub lsn: u64,
}

impl CommitKey {
    /// Whether the sequence number is a real one.
    pub open spec fn wf(self) -> bool {
        self.lsn >= FIRST_LSN
    }

    /// The stored form: the volume, then the sequence number in 8 bytes,
    /// most significant byte first.
    pub open spec fn bytes(self) -> Seq<u8> {
        self.vid@ + be_bytes(self.lsn as nat, 8)
    }

    /// What a stored key names, or why it is not the key of a commit.
    pub open spec fn parse(bytes: Seq<u8>) -> Result<CommitKey, LayoutErr> {
        if bytes.len() != COMMIT_KEY_SIZE {
            Err(LayoutErr::InvalidSize)
        } else if be_value(bytes.subrange(16, 24)) == 0 {
            Err(LayoutErr::InvalidData)
        } else {
            Ok(CommitKey { vid: vid_of(bytes), lsn: be_value(bytes.subrange(16, 24)) as u64 })
        }
    }

    /// Whether `self` sorts before `other` or equals it: by volume, then
    /// sequence number.
    pub open spec fn sorts_le(self, other: CommitKey) -> bool {
        if self.vid.hi != other.vid.hi {
            self.vid.hi < other.vid.hi
        } else if self.vid.lo != other.vid.lo {
            self.vid.lo < other.vid.lo
        } else {
            self.lsn <= other.lsn
        }
    }

    /// The key of the commit of the volume `vid` at `lsn`.
    pub fn new(vid: VolumeId, lsn: u64) -> (key: CommitKey)
        requires
            lsn >= FIRST_LSN,
        ensures
            key == (CommitKey { vid, lsn }),
    {
        CommitKey { vid, lsn }
    }

    /// This key at another sequence number.
    pub fn with_lsn(self, lsn: u64) -> (key: CommitKey)
        requires
            lsn >= FIRST_LSN,
        ensures
            key == (CommitKey { lsn, ..self }),
    {
        CommitKey { vid: self.vid, lsn }
    }

    /// The volume of the commit.
    pub fn vid(&self) -> (vid: &VolumeId)
        ensures
            *vid == self.vid,
    {
        &self.vid
    }

    /// The sequence number of the commit.
    pub fn lsn(&self) -> (lsn: u64)
        ensures
            lsn == self.lsn,
    {
        self.lsn
    }

    /// Writes the stored form.
    pub fn to_bytes(&self) -> (bytes: Vec<u8>)
        ensures
            bytes@ == self.bytes(),
    {
        let mut bytes = self.vid.to_bytes();
        put_be(&mut bytes, self.lsn, 8);
        bytes
    }

    /// Reads a stored key.
    pub fn from_bytes(bytes: &[u8]) -> (parsed: Result<CommitKey, LayoutErr>)
        ensures
            parsed == CommitKey::parse(bytes@),
    {
        if bytes.len() != COMMIT_KEY_SIZE {
            return Err(LayoutErr::InvalidSize);
        }
        let lsn = get_be(bytes, 16, 8);
        if lsn == 0 {
            return Err(LayoutErr::InvalidData);
        }
        let vid = VolumeId::read_at(bytes, 0);
        proof {
            lemma_vid_of_bytes(bytes@);
            VolumeId::lemma_view(vid, vid_of(bytes@));
        }
        Ok(CommitKey { vid, lsn })
    }

    /// A well-formed key is read back from its stored form, and bytes that
    /// are read as a key are the stored form of that key.
    pub proof fn lemma_round_trip(self, bytes: Seq<u8>)
        ensures
            self.bytes().len() == COMMIT_KEY_SIZE,
            self.wf() ==> CommitKey::parse(self.bytes()) == Ok::<CommitKey, LayoutErr>(self),
            CommitKey::parse(bytes) matches Ok(key) ==> key.wf() && key.bytes() == bytes,
    {
        let own = self.bytes();
        lemma_vid_of(self.vid, be_bytes(self.lsn as nat, 8));
        lemma_be_bytes_len(self.lsn as nat, 8);
        lemma_pow256_values();
        lemma_be_value_of_bytes(self.lsn as nat, 8);
        assert(own.subrange(16, 24) =~= be_bytes(self.lsn as nat, 8));
        if CommitKey::parse(bytes) is Ok {
            let key = CommitKey::parse(bytes)->Ok_0;
            lemma_vid_of_bytes(bytes);
            lemma_be_bytes_of_value(bytes.subrange(16, 24));
            assert(key.bytes() =~= bytes);
        }
    }

    /// Comparing the stored forms of two keys byte by byte compares their
    /// volumes, then their sequence numbers.
    pub proof fn lemma_order(self, other: CommitKey)
        ensures
            lex_le(self.bytes(), other.bytes()) <==> self.sorts_le(other),
    {
        let (a_hi, a_lo) = (be_bytes(self.vid.hi as nat, 8), be_bytes(self.vid.lo as nat, 8));
        let (b_hi, b_lo) = (be_bytes(other.vid.hi as nat, 8), be_bytes(other.vid.lo as nat, 8));
        let a_lsn = be_bytes(self.lsn as nat, 8);
        let b_lsn = be_bytes(other.lsn as nat, 8);
        lemma_pow256_values();
        lemma_be_bytes_len(self.vid.hi as nat, 8);
        lemma_be_bytes_len(self.vid.lo as nat, 8);
        lemma_be_bytes_len(other.vid.hi as nat, 8);
        lemma_be_bytes_len(other.vid.lo as nat, 8);
        lemma_be_bytes_len(self.lsn as nat, 8);
        lemma_be_bytes_len(other.lsn as nat, 8);
        lemma_be_value_of_bytes(self.vid.hi as nat, 8);
        lemma_be_value_of_bytes(self.vid.lo as nat, 8);
        lemma_be_value_of_bytes(other.vid.hi as nat, 8);
        lemma_be_value_of_bytes(other.vid.lo as nat, 8);
        lemma_be_value_of_bytes(self.lsn as nat, 8);
        lemma_be_value_of_bytes(other.lsn as nat, 8);
        lemma_be_order(a_hi, b_hi);
        lemma_be_order(a_lo, b_lo);
        lemma_be_order(a_lsn, b_lsn);
        assert(self.bytes() =~= a_hi + (a_lo + a_lsn));
        assert(other.bytes() =~= b_hi + (b_lo + b_lsn));
        lemma_lex_le_concat(a_hi, a_lo + a_lsn, b_hi, b_lo + b_lsn);
        lemma_lex_le_concat(a_lo, a_lsn, b_lo, b_lsn);
    }

    /// The keys that lie between the keys of two sequence numbers of one
    /// volume are the keys of that volume with a sequence number between
    /// the two: a scan of that range finds those commits, oldest first.
    pub proof fn lemma_range(self, vid: VolumeId, first: u64, last: u64)
        ensures
            (lex_le((CommitKey { vid, lsn: first }).bytes(), self.bytes()) && lex_le(
                self.bytes(),
                (CommitKey { vid, lsn: last }).bytes(),
            )) <==> (self.vid == vid && first <= self.lsn <= last),
    {
        (CommitKey { vid, lsn: first }).lemma_order(self);
        self.lemma_order(CommitKey { vid, lsn: last });
    }
}

} // verus!
