//! The compressed bitmap in which a commit records the offsets it changed.
//!
//! The bitmap format belongs to the `splinter_rs` crate. The store writes
//! bitmaps and checks their framing; it never looks inside one.

use splinter_rs::{DecodeErr, Splinter, SplinterRef};
use vstd::prelude::*;

use crate::error::BitmapErr;

verus! {

/// The serialized bitmap that holds exactly the offsets of `offsets`.
pub uninterp spec fn bitmap_bytes(offsets: Set<u32>) -> Seq<u8>;

/// The four bytes that start every serialized bitmap.
pub open spec fn bitmap_magic() -> Seq<u8> {
    seq![0xDAu8, 0xAEu8, 0x12u8, 0xDFu8]
}

/// What the check of a bitmap's framing finds: bytes too short for the
/// header, a header that does not start with the magic number, or nothing
/// wrong.
pub open spec fn bitmap_framing(bytes: Seq<u8>) -> Result<(), BitmapErr> {
    if bytes.len() < 4 {
        Err(BitmapErr::InvalidHeader)
    } else if bytes.subrange(0, 4) != bitmap_magic() {
        Err(BitmapErr::InvalidMagic)
    } else {
        Ok(())
    }
}

/// Serializes the set of `offsets` with `splinter_rs::Splinter::from_slice`
/// and `Splinter::serialize_to_bytes`.
///
/// Trusted: the bytes depend on the set of offsets alone, whatever their
/// order and repetition in `offsets`, and they start with the header that
/// the framing check accepts.
#[verifier::external_body]
pub(crate) fn encode_offsets(offsets: &Vec<u32>) -> (bytes: Vec<u8>)
    ensures
        bytes@ == bitmap_bytes(offsets@.to_set()),
        bitmap_framing(bytes@) is Ok,
{
    Splinter::from_slice(offsets.as_slice()).serialize_to_bytes().to_vec()
}

/// Checks the framing of a serialized bitmap with
/// `splinter_rs::SplinterRef::from_bytes`.
///
/// Trusted: the call fails with `InvalidHeader` on fewer than four bytes,
/// with `InvalidMagic` where the first four are not the magic number, and
/// succeeds otherwise; with four bytes there the footer is always found.
#[verifier::external_body]
pub(crate) fn check_bitmap(bytes: &[u8]) -> (checked: Result<(), BitmapErr>)
    ensures
        checked == bitmap_framing(bytes@),
{
    match SplinterRef::from_bytes(bytes) {
        Ok(_) => Ok(()),
        Err(err) => Err(
            match err.ctx() {
                DecodeErr::InvalidHeader => BitmapErr::InvalidHeader,
                DecodeErr::InvalidMagic => BitmapErr::InvalidMagic,
                DecodeErr::InvalidFooter => BitmapErr::InvalidFooter,
            },
        ),
    }
}

} // verus!
