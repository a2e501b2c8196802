//! What the rows that a scan of the substrate finds say of a volume.

use vstd::prelude::*;

use crate::codec::lex_le;
use crate::error::StorageErr;
use crate::keys::{PageKey, VolumeStateKey};
use crate::page::PageContent;
use crate::read::{accumulated_rows, read_found};
use crate::snapshot::FIRST_LSN;
use crate::volume::Volume;
use crate::volume_id::VolumeId;
use crate::volume_state::{VolumeState, VolumeStateTag};

verus! {

/// Whether `key` lies in the range that is scanned for a read of `offset`
/// at `lsn` in volume `vid`.
pub open spec fn in_read_range(vid: VolumeId, lsn: u64, offset: u32, key: Seq<u8>) -> bool {
    lex_le((PageKey { vid, offset, lsn: FIRST_LSN }).bytes(), key) && lex_le(
        key,
        (PageKey { vid, offset, lsn }).bytes(),
    )
}

/// Whether the page row named by `found` is what a scan for a read of
/// `offset` at `lsn` takes from the page rows of `volume`: the row with
/// the greatest key in the range, or none where the range has no row.
pub open spec fn read_scan_finds(
    volume: Volume,
    vid: VolumeId,
    lsn: u64,
    offset: u32,
    found: Option<(u32, u64)>,
) -> bool {
    match found {
        Some((found_offset, found_lsn)) => {
            &&& volume.pages.contains_key((found_offset, found_lsn))
            &&& in_read_range(
                vid,
                lsn,
                offset,
                (PageKey { vid, offset: found_offset, lsn: found_lsn }).bytes(),
            )
            &&& forall|other: u32, at: u64| #[trigger]
                volume.pages.contains_key((other, at)) && in_read_range(
                    vid,
                    lsn,
                    offset,
                    (PageKey { vid, offset: other, lsn: at }).bytes(),
                ) ==> lex_le(
                    (PageKey { vid, offset: other, lsn: at }).bytes(),
                    (PageKey { vid, offset: found_offset, lsn: found_lsn }).bytes(),
                )
        },
        None => forall|other: u32, at: u64| #[trigger]
            volume.pages.contains_key((other, at)) ==> !in_read_range(
                vid,
                lsn,
                offset,
                (PageKey { vid, offset: other, lsn: at }).bytes(),
            ),
    }
}

/// The stored row of the page that `found` names.
pub open spec fn found_row(volume: Volume, vid: VolumeId, found: Option<(u32, u64)>) -> Option<
    (Seq<u8>, Seq<u8>),
> {
    match found {
        Some((offset, lsn)) => Some(
            ((PageKey { vid, offset, lsn }).bytes(), volume.pages[(offset, lsn)].stored()),
        ),
        None => None,
    }
}

/// A read gives the page value with the largest sequence number not above
/// the one asked for, and `Empty` where there is none: the last row of
/// the scanned range is that value's row.
pub proof fn law_read(volume: Volume, vid: VolumeId, lsn: u64, offset: u32, found: Option<(u32, u64)>)
    requires
        volume.inv(),
        read_scan_finds(volume, vid, lsn, offset, found),
    ensures
        read_found(lsn, found_row(volume, vid, found)) == Ok::<(u64, PageContent), StorageErr>(
            volume.read(lsn, offset),
        ),
{
    match found {
        Some((found_offset, found_lsn)) => {
            let key = PageKey { vid, offset: found_offset, lsn: found_lsn };
            let content = volume.pages[(found_offset, found_lsn)];
            key.lemma_range(vid, offset, lsn);
            key.lemma_round_trip(key.bytes());
            content.lemma_round_trip(content.stored());
            assert(volume.visible(lsn, offset, found_lsn));
            assert forall|other: u64| #[trigger]
                volume.visible(lsn, offset, other) implies other <= found_lsn by {
                let rival = PageKey { vid, offset, lsn: other };
                assert(volume.pages.contains_key((offset, other)));
                rival.lemma_range(vid, offset, lsn);
                rival.lemma_order(key);
            }
            assert(volume.latest(lsn, offset, found_lsn));
            volume.lemma_read_latest(lsn, offset, found_lsn);
        },
        None => {
            assert forall|at: u64| !volume.visible(lsn, offset, at) by {
                if volume.visible(lsn, offset, at) {
                    let rival = PageKey { vid, offset, lsn: at };
                    assert(volume.pages.contains_key((offset, at)));
                    rival.lemma_range(vid, offset, lsn);
                }
            }
        },
    }
}

/// The state rows of a volume as the substrate holds them, in the order
/// of their keys.
pub open spec fn state_rows(volume: Volume, vid: VolumeId) -> Seq<(Seq<u8>, Seq<u8>)> {
    (match volume.config {
        Some(config) => seq![
            ((VolumeStateKey { vid, tag: VolumeStateTag::Config }).bytes(), config.bytes()),
        ],
        None => Seq::empty(),
    }) + (match volume.snapshot {
        Some(snapshot) => seq![
            ((VolumeStateKey { vid, tag: VolumeStateTag::Snapshot }).bytes(), snapshot.bytes()),
        ],
        None => Seq::empty(),
    }) + (match volume.watermarks {
        Some(watermarks) => seq![
            ((VolumeStateKey { vid, tag: VolumeStateTag::Watermarks }).bytes(), watermarks.bytes()),
        ],
        None => Seq::empty(),
    }) + (match volume.status {
        Some(status) => seq![
            ((VolumeStateKey { vid, tag: VolumeStateTag::Status }).bytes(), status.bytes()),
        ],
        None => Seq::empty(),
    })
}

/// Taking in one more row.
pub proof fn lemma_accumulated_push(
    state: VolumeState,
    rows: Seq<(Seq<u8>, Seq<u8>)>,
    row: (Seq<u8>, Seq<u8>),
)
    ensures
        accumulated_rows(state, rows.push(row)) == match accumulated_rows(state, rows) {
            Err(err) => Err(err),
            Ok(state) => match VolumeStateKey::parse(row.0) {
                Err(err) => Err(StorageErr::CorruptKey(err)),
                Ok(key) => state.accumulated(key.tag, row.1),
            },
        },
{
    assert(rows.push(row).drop_last() =~= rows);
}

/// Reading the state rows of a volume gives the state of the volume.
pub proof fn law_volume_state(volume: Volume, vid: VolumeId)
    requires
        volume.inv(),
    ensures
        accumulated_rows(VolumeState::spec_new(vid), state_rows(volume, vid)) == Ok::<
            VolumeState,
            StorageErr,
        >(volume.state(vid)),
{
    let start = VolumeState::spec_new(vid);
    let none = Seq::<(Seq<u8>, Seq<u8>)>::empty();
    let config_key = VolumeStateKey { vid, tag: VolumeStateTag::Config };
    let snapshot_key = VolumeStateKey { vid, tag: VolumeStateTag::Snapshot };
    let watermarks_key = VolumeStateKey { vid, tag: VolumeStateTag::Watermarks };
    let status_key = VolumeStateKey { vid, tag: VolumeStateTag::Status };
    config_key.lemma_round_trip(config_key.bytes());
    snapshot_key.lemma_round_trip(snapshot_key.bytes());
    watermarks_key.lemma_round_trip(watermarks_key.bytes());
    status_key.lemma_round_trip(status_key.bytes());
    let first = match volume.config {
        Some(config) => none.push((config_key.bytes(), config.bytes())),
        None => none,
    };
    if volume.config is Some {
        lemma_accumulated_push(start, none, (config_key.bytes(), volume.config->Some_0.bytes()));
        volume.config->Some_0.lemma_round_trip();
    }
    let second = match volume.snapshot {
        Some(snapshot) => first.push((snapshot_key.bytes(), snapshot.bytes())),
        None => first,
    };
    if volume.snapshot is Some {
        lemma_accumulated_push(start, first, (snapshot_key.bytes(), volume.snapshot->Some_0.bytes()));
        volume.snapshot->Some_0.lemma_parse_bytes();
    }
    let third = match volume.watermarks {
        Some(watermarks) => second.push((watermarks_key.bytes(), watermarks.bytes())),
        None => second,
    };
    if volume.watermarks is Some {
        lemma_accumulated_push(
            start,
            second,
            (watermarks_key.bytes(), volume.watermarks->Some_0.bytes()),
        );
        volume.watermarks->Some_0.lemma_parse_bytes();
    }
    let fourth = match volume.status {
        Some(status) => third.push((status_key.bytes(), status.bytes())),
        None => third,
    };
    if volume.status is Some {
        lemma_accumulated_push(start, third, (status_key.bytes(), volume.status->Some_0.bytes()));
        volume.status->Some_0.lemma_round_trip();
    }
    assert(state_rows(volume, vid) =~= fourth);
}

} // verus!
