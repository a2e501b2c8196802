//! What can go wrong when stored rows are read back or a volume is changed.

use vstd::prelude::*;

use crate::volume_state::VolumeStateTag;

verus! {

/// Why a fixed-layout record could not be read from its bytes.
#[derive(Clone, Copy, Debug, PartialEq, Eq, Structural)]
pub enum LayoutErr {
    /// The record has the wrong number of bytes.
    InvalidSize,
    /// A field holds a value that no record is written with.
    InvalidData,
}

/// Why a stored page value could not be read from its bytes.
#[derive(Clone, Copy, Debug, PartialEq, Eq, Structural)]
pub enum PageValueErr {
    /// The value is neither one marker byte nor one page long.
    InvalidLength,
    /// The value is one byte long but is not the pending marker.
    InvalidMark,
}

/// Why the bytes of an offset bitmap were turned down.
#[derive(Clone, Copy, Debug, PartialEq, Eq, Structural)]
pub enum BitmapErr {
    /// The bytes are too short to hold a header.
    InvalidHeader,
    /// The header does not start with the bitmap's magic number.
    InvalidMagic,
    /// The bytes are too short to hold a footer.
    InvalidFooter,
}

/// Errors of the volume store's decisions.
#[derive(Clone, Copy, Debug, PartialEq, Eq, Structural)]
pub enum StorageErr {
    /// A stored key failed layout validation.
    CorruptKey(LayoutErr),
    /// The stored snapshot of a volume failed layout validation.
    CorruptSnapshot(LayoutErr),
    /// The stored configuration of a volume failed layout validation.
    CorruptVolumeConfig(LayoutErr),
    /// The stored watermarks or status of a volume failed layout
    /// validation.
    CorruptVolumeState(VolumeStateTag, LayoutErr),
    /// A stored page value failed validation.
    CorruptPage(PageValueErr),
    /// A stored commit's bitmap failed validation.
    CorruptCommit(BitmapErr),
    /// The snapshot that a commit was built on is no longer the latest.
    ConcurrentWrite,
    /// A push was started and neither completed nor rolled back.
    VolumeNeedsRecovery,
    /// A remote commit arrived while local commits were unsent.
    RemoteConflict,
}

} // verus!
