//! Volume identifiers.

use vstd::prelude::*;

use crate::codec::{
    be_bytes, be_value, get_be, lemma_be_bytes_len, lemma_be_bytes_of_value,
    lemma_be_value_of_bytes, lemma_pow256_values, put_be,
};

verus! {

/// Number of bytes in a volume identifier.
pub const VOLUME_ID_SIZE: usize = 16;

/// The 16-byte identity of a volume, held as the two big-endian halves of
/// its bytes, so that identifiers compare as their bytes do.
#[derive(Clone, Copy, Debug, PartialEq, Eq, Structural, Hash, PartialOrd, Ord)]
pub struct VolumeId {
    pub hi: u64,
    pub lo: u64,
}

impl View for VolumeId {
    type V = Seq<u8>;

    /// The 16 bytes of the identifier.
    open spec fn view(&self) -> Seq<u8> {
        be_bytes(self.hi as nat, 8) + be_bytes(self.lo as nat, 8)
    }
}

impl VolumeId {
    /// The identifier whose bytes are the big-endian digits of `hi`
    /// followed by those of `lo`.
    pub fn from_halves(hi: u64, lo: u64) -> (id: VolumeId)
        ensures
            id == (VolumeId { hi, lo }),
    {
        VolumeId { hi, lo }
    }

    /// Reads the identifier held in the 16 bytes from `start`.
    pub fn read_at(bytes: &[u8], start: usize) -> (id: VolumeId)
        requires
            start + VOLUME_ID_SIZE <= bytes@.len(),
        ensures
            id@ == bytes@.subrange(start as int, start + VOLUME_ID_SIZE),
    {
        let total = bytes.len();
        assert(start + VOLUME_ID_SIZE <= total);
        let hi = get_be(bytes, start, 8);
        let lo = get_be(bytes, start + 8, 8);
        let id = VolumeId { hi, lo };
        proof {
            let first = bytes@.subrange(start as int, start + 8);
            let second = bytes@.subrange(start + 8, start + 16);
            lemma_be_bytes_of_value(first);
            lemma_be_bytes_of_value(second);
            assert(id@ =~= bytes@.subrange(start as int, start + VOLUME_ID_SIZE));
        }
        id
    }

    /// Reads an identifier from exactly 16 bytes.
    pub fn from_slice(bytes: &[u8]) -> (id: Option<VolumeId>)
        ensures
            id is Some <==> bytes@.len() == VOLUME_ID_SIZE,
            id matches Some(v) ==> v@ == bytes@,
    {
        if bytes.len() == VOLUME_ID_SIZE {
            let id = VolumeId::read_at(bytes, 0);
            assert(bytes@.subrange(0, VOLUME_ID_SIZE as int) =~= bytes@);
            Some(id)
        } else {
            None
        }
    }

    /// Appends the 16 bytes of the identifier.
    pub fn write_to(&self, out: &mut Vec<u8>)
        ensures
            final(out)@ == old(out)@ + self@,
    {
        put_be(out, self.hi, 8);
        put_be(out, self.lo, 8);
        assert(old(out)@ + be_bytes(self.hi as nat, 8) + be_bytes(self.lo as nat, 8) =~= old(out)@
            + self@);
    }

    /// The 16 bytes of the identifier.
    pub fn to_bytes(&self) -> (bytes: Vec<u8>)
        ensures
            bytes@ == self@,
    {
        let mut bytes: Vec<u8> = Vec::new();
        self.write_to(&mut bytes);
        assert(Seq::<u8>::empty() + self@ =~= self@);
        bytes
    }

    /// Identifiers have 16 bytes, and two identifiers with the same bytes
    /// are the same identifier.
    pub proof fn lemma_view(a: VolumeId, b: VolumeId)
        ensures
            a@.len() == VOLUME_ID_SIZE,
            a@ == b@ <==> a == b,
    {
        lemma_be_bytes_len(a.hi as nat, 8);
        lemma_be_bytes_len(a.lo as nat, 8);
        lemma_be_bytes_len(b.hi as nat, 8);
        lemma_be_bytes_len(b.lo as nat, 8);
        lemma_pow256_values();
        if a@ == b@ {
            assert(a@.subrange(0, 8) =~= be_bytes(a.hi as nat, 8));
            assert(b@.subrange(0, 8) =~= be_bytes(b.hi as nat, 8));
            assert(a@.subrange(8, 16) =~= be_bytes(a.lo as nat, 8));
            assert(b@.subrange(8, 16) =~= be_bytes(b.lo as nat, 8));
            lemma_be_value_of_bytes(a.hi as nat, 8);
            lemma_be_value_of_bytes(b.hi as nat, 8);
            lemma_be_value_of_bytes(a.lo as nat, 8);
            lemma_be_value_of_bytes(b.lo as nat, 8);
            assert(be_value(be_bytes(a.hi as nat, 8)) == be_value(be_bytes(b.hi as nat, 8)));
            assert(be_value(be_bytes(a.lo as nat, 8)) == be_value(be_bytes(b.lo as nat, 8)));
        }
    }
}

} // verus!
