//! The substrate as a mathematical value: three ordered maps from keys
//! to values, and how the rows that they hold stand for a volume.

use vstd::prelude::*;

use crate::batch::Change;
use crate::bitmap::bitmap_bytes;
use crate::codec::lex_le;
use crate::error::StorageErr;
use crate::keys::{CommitKey, PageKey, VolumeStateKey};
use crate::page::PageContent;
use crate::read::read_found;
use crate::rows::{Partition, Row};
use crate::scan::in_read_range;
use crate::volume::Volume;
use crate::volume_id::VolumeId;
use crate::volume_state::VolumeStateTag;

verus! {

/// What the three partitions hold.
pub struct Substrate {
    pub volumes: Map<Seq<u8>, Seq<u8>>,
    pub pages: Map<Seq<u8>, Seq<u8>>,
    pub commits: Map<Seq<u8>, Seq<u8>>,
}

/// A map after one write: the key holds the value, or is gone.
pub open spec fn written(map: Map<Seq<u8>, Seq<u8>>, key: Seq<u8>, value: Option<Seq<u8>>) -> Map<
    Seq<u8>,
    Seq<u8>,
> {
    match value {
        Some(value) => map.insert(key, value),
        None => map.remove(key),
    }
}

/// Whether a map holds under `key` the value `value`, or nothing where
/// `value` is none.
pub open spec fn holds(map: Map<Seq<u8>, Seq<u8>>, key: Seq<u8>, value: Option<Seq<u8>>) -> bool {
    match value {
        Some(value) => map.contains_key(key) && map[key] == value,
        None => !map.contains_key(key),
    }
}

impl Substrate {
    /// The substrate after one write.
    pub open spec fn write(self, row: Row) -> Substrate {
        match row.partition {
            Partition::Volumes => Substrate {
                volumes: written(self.volumes, row.key, row.value),
                ..self
            },
            Partition::Pages => Substrate { pages: written(self.pages, row.key, row.value), ..self },
            Partition::Commits => Substrate {
                commits: written(self.commits, row.key, row.value),
                ..self
            },
        }
    }

    /// The substrate after the writes of a batch of changes to the volume
    /// `vid`, made in order.
    pub open spec fn write_all(self, vid: VolumeId, changes: Seq<Change>) -> Substrate
        decreases changes.len(),
    {
        if changes.len() == 0 {
            self
        } else {
            self.write_all(vid, changes.drop_last()).write(changes.last().row(vid))
        }
    }

    /// Whether the rows of the volume `vid` in the substrate are those of
    /// `volume`: each state row under the key of its tag, each page under
    /// the key of its offset and sequence number, each commit under the
    /// key of its sequence number, all in their stored forms, and no other
    /// row under a key of the volume.
    pub open spec fn stores(self, vid: VolumeId, volume: Volume) -> bool {
        &&& holds(
            self.volumes,
            (VolumeStateKey { vid, tag: VolumeStateTag::Config }).bytes(),
            match volume.config {
                Some(config) => Some(config.bytes()),
                None => None,
            },
        )
        &&& holds(
            self.volumes,
            (VolumeStateKey { vid, tag: VolumeStateTag::Snapshot }).bytes(),
            match volume.snapshot {
                Some(snapshot) => Some(snapshot.bytes()),
                None => None,
            },
        )
        &&& holds(
            self.volumes,
            (VolumeStateKey { vid, tag: VolumeStateTag::Watermarks }).bytes(),
            match volume.watermarks {
                Some(watermarks) => Some(watermarks.bytes()),
                None => None,
            },
        )
        &&& holds(
            self.volumes,
            (VolumeStateKey { vid, tag: VolumeStateTag::Status }).bytes(),
            match volume.status {
                Some(status) => Some(status.bytes()),
                None => None,
            },
        )
        &&& forall|offset: u32, lsn: u64|
            holds(
                self.pages,
                #[trigger] (PageKey { vid, offset, lsn }).bytes(),
                if volume.pages.contains_key((offset, lsn)) {
                    Some(volume.pages[(offset, lsn)].stored())
                } else {
                    None
                },
            )
        &&& forall|lsn: u64|
            holds(
                self.commits,
                #[trigger] (CommitKey { vid, lsn }).bytes(),
                if volume.commits.contains_key(lsn) {
                    Some(bitmap_bytes(volume.commits[lsn]))
                } else {
                    None
                },
            )
    }
}

/// Two state keys with the same stored form are the same key.
pub proof fn lemma_state_key_injective(a: VolumeStateKey, b: VolumeStateKey)
    requires
        a.bytes() == b.bytes(),
    ensures
        a == b,
{
    a.lemma_round_trip(a.bytes());
    b.lemma_round_trip(b.bytes());
}

/// Two page keys with the same stored form are the same key.
pub proof fn lemma_page_key_injective(a: PageKey, b: PageKey)
    requires
        a.bytes() == b.bytes(),
    ensures
        a == b,
{
    a.lemma_order(b);
    b.lemma_order(a);
}

/// Two commit keys with the same stored form are the same key.
pub proof fn lemma_commit_key_injective(a: CommitKey, b: CommitKey)
    requires
        a.bytes() == b.bytes(),
    ensures
        a == b,
{
    a.lemma_order(b);
    b.lemma_order(a);
}

/// Writing the row of a change to a volume makes that change to the rows
/// that the substrate stores of the volume, and leaves what it stores of
/// every other volume as it was.
pub proof fn law_write_is_change(
    substrate: Substrate,
    vid: VolumeId,
    volume: Volume,
    change: Change,
    other_vid: VolumeId,
    other: Volume,
)
    requires
        substrate.stores(vid, volume),
        other_vid != vid,
        substrate.stores(other_vid, other),
    ensures
        substrate.write(change.row(vid)).stores(vid, volume.apply(change)),
        substrate.write(change.row(vid)).stores(other_vid, other),
{
    let after = substrate.write(change.row(vid));
    let changed = volume.apply(change);
    let key = change.row(vid).key;
    assert forall|tag: VolumeStateTag, at: VolumeId| #![trigger (VolumeStateKey { vid: at, tag }).bytes()]
        (change.row(vid).partition == Partition::Volumes && (VolumeStateKey { vid: at, tag }).bytes()
            == key) implies at == vid && change.row(vid).key == (VolumeStateKey { vid, tag }).bytes() by {
        let mine: VolumeStateKey = match change {
            Change::PutConfig(_) => VolumeStateKey { vid, tag: VolumeStateTag::Config },
            Change::PutStatus(_) => VolumeStateKey { vid, tag: VolumeStateTag::Status },
            Change::RemoveStatus => VolumeStateKey { vid, tag: VolumeStateTag::Status },
            Change::PutSnapshot(_) => VolumeStateKey { vid, tag: VolumeStateTag::Snapshot },
            Change::RemoveSnapshot => VolumeStateKey { vid, tag: VolumeStateTag::Snapshot },
            _ => VolumeStateKey { vid, tag: VolumeStateTag::Watermarks },
        };
        lemma_state_key_injective(VolumeStateKey { vid: at, tag }, mine);
    }
    assert forall|offset: u32, lsn: u64, at: VolumeId| #![trigger (PageKey { vid: at, offset, lsn }).bytes()]
        (change.row(vid).partition == Partition::Pages && (PageKey { vid: at, offset, lsn }).bytes()
            == key) implies at == vid && (change matches Change::PutPage { offset: o, lsn: l, .. }
        ==> o == offset && l == lsn) && (change matches Change::RemovePage { offset: o, lsn: l }
        ==> o == offset && l == lsn) by {
        match change {
            Change::PutPage { offset: o, lsn: l, .. } => {
                lemma_page_key_injective(PageKey { vid: at, offset, lsn }, PageKey { vid, offset: o, lsn: l });
            },
            Change::RemovePage { offset: o, lsn: l } => {
                lemma_page_key_injective(PageKey { vid: at, offset, lsn }, PageKey { vid, offset: o, lsn: l });
            },
            _ => {},
        }
    }
    assert forall|lsn: u64, at: VolumeId| #![trigger (CommitKey { vid: at, lsn }).bytes()]
        (change.row(vid).partition == Partition::Commits && (CommitKey { vid: at, lsn }).bytes()
            == key) implies at == vid && (change matches Change::PutCommit { lsn: l, .. } ==> l
        == lsn) && (change matches Change::RemoveCommit { lsn: l } ==> l == lsn) by {
        match change {
            Change::PutCommit { lsn: l, .. } => {
                lemma_commit_key_injective(CommitKey { vid: at, lsn }, CommitKey { vid, lsn: l });
            },
            Change::RemoveCommit { lsn: l } => {
                lemma_commit_key_injective(CommitKey { vid: at, lsn }, CommitKey { vid, lsn: l });
            },
            _ => {},
        }
    }
    lemma_stores_after(substrate, after, vid, volume, changed, change, vid);
    lemma_stores_after(substrate, after, other_vid, other, other, change, vid);
}

/// What the substrate stores of a volume after a write, given which keys
/// of the volume the write can have touched.
proof fn lemma_stores_after(
    before: Substrate,
    after: Substrate,
    at: VolumeId,
    volume: Volume,
    changed: Volume,
    change: Change,
    vid: VolumeId,
)
    requires
        before.stores(at, volume),
        after == before.write(change.row(vid)),
        changed == if at == vid {
            volume.apply(change)
        } else {
            volume
        },
        forall|tag: VolumeStateTag, a: VolumeId| #![trigger (VolumeStateKey { vid: a, tag }).bytes()]
            (change.row(vid).partition == Partition::Volumes && (VolumeStateKey { vid: a, tag }).bytes()
                == change.row(vid).key) ==> a == vid && change.row(vid).key == (VolumeStateKey {
                vid,
                tag,
            }).bytes(),
        forall|offset: u32, lsn: u64, a: VolumeId| #![trigger (PageKey { vid: a, offset, lsn }).bytes()]
            (change.row(vid).partition == Partition::Pages && (PageKey { vid: a, offset, lsn }).bytes()
                == change.row(vid).key) ==> a == vid && (change matches Change::PutPage {
                offset: o,
                lsn: l,
                ..
            } ==> o == offset && l == lsn) && (change matches Change::RemovePage { offset: o, lsn: l }
                ==> o == offset && l == lsn),
        forall|lsn: u64, a: VolumeId| #![trigger (CommitKey { vid: a, lsn }).bytes()]
            (change.row(vid).partition == Partition::Commits && (CommitKey { vid: a, lsn }).bytes()
                == change.row(vid).key) ==> a == vid && (change matches Change::PutCommit {
                lsn: l,
                ..
            } ==> l == lsn) && (change matches Change::RemoveCommit { lsn: l } ==> l == lsn),
    ensures
        after.stores(at, changed),
{
    if at == vid {
        lemma_state_keys_differ(vid);
    }
    assert forall|offset: u32, lsn: u64|
        holds(
            after.pages,
            #[trigger] (PageKey { vid: at, offset, lsn }).bytes(),
            if changed.pages.contains_key((offset, lsn)) {
                Some(changed.pages[(offset, lsn)].stored())
            } else {
                None
            },
        ) by {
        let key = (PageKey { vid: at, offset, lsn }).bytes();
        assert(holds(
            before.pages,
            key,
            if volume.pages.contains_key((offset, lsn)) {
                Some(volume.pages[(offset, lsn)].stored())
            } else {
                None
            },
        ));
    }
    assert forall|lsn: u64|
        holds(
            after.commits,
            #[trigger] (CommitKey { vid: at, lsn }).bytes(),
            if changed.commits.contains_key(lsn) {
                Some(bitmap_bytes(changed.commits[lsn]))
            } else {
                None
            },
        ) by {
        let key = (CommitKey { vid: at, lsn }).bytes();
        assert(holds(
            before.commits,
            key,
            if volume.commits.contains_key(lsn) {
                Some(bitmap_bytes(volume.commits[lsn]))
            } else {
                None
            },
        ));
    }
}

/// The four state keys of a volume differ from each other.
pub proof fn lemma_state_keys_differ(vid: VolumeId)
    ensures
        forall|a: VolumeStateTag, b: VolumeStateTag|
            (#[trigger] (VolumeStateKey { vid, tag: a }).bytes()) == (#[trigger] (VolumeStateKey {
                vid,
                tag: b,
            }).bytes()) ==> a == b,
{
    assert forall|a: VolumeStateTag, b: VolumeStateTag|
        (#[trigger] (VolumeStateKey { vid, tag: a }).bytes()) == (#[trigger] (VolumeStateKey {
            vid,
            tag: b,
        }).bytes()) implies a == b by {
        lemma_state_key_injective(VolumeStateKey { vid, tag: a }, VolumeStateKey { vid, tag: b });
    }
}

/// Writing the rows of a batch of changes to a volume makes those changes
/// to the rows that the substrate stores of the volume, and leaves what it
/// stores of every other volume as it was.
pub proof fn law_batch_is_changes(
    substrate: Substrate,
    vid: VolumeId,
    volume: Volume,
    changes: Seq<Change>,
    other_vid: VolumeId,
    other: Volume,
)
    requires
        substrate.stores(vid, volume),
        other_vid != vid,
        substrate.stores(other_vid, other),
    ensures
        substrate.write_all(vid, changes).stores(vid, volume.apply_all(changes)),
        substrate.write_all(vid, changes).stores(other_vid, other),
    decreases changes.len(),
{
    if changes.len() > 0 {
        law_batch_is_changes(substrate, vid, volume, changes.drop_last(), other_vid, other);
        law_write_is_change(
            substrate.write_all(vid, changes.drop_last()),
            vid,
            volume.apply_all(changes.drop_last()),
            changes.last(),
            other_vid,
            other,
        );
    }
}

/// Whether `found` is what a scan for a read of `offset` at `lsn` in the
/// volume `vid` takes from the page partition: the key in the range that
/// comes last, or none where no key is in the range.
pub open spec fn scan_finds(
    substrate: Substrate,
    vid: VolumeId,
    lsn: u64,
    offset: u32,
    found: Option<Seq<u8>>,
) -> bool {
    match found {
        Some(key) => {
            &&& substrate.pages.contains_key(key)
            &&& in_read_range(vid, lsn, offset, key)
            &&& forall|other: Seq<u8>| #[trigger]
                substrate.pages.contains_key(other) && in_read_range(vid, lsn, offset, other)
                    ==> lex_le(other, key)
        },
        None => forall|other: Seq<u8>| #[trigger]
            substrate.pages.contains_key(other) ==> !in_read_range(vid, lsn, offset, other),
    }
}

/// A read of the rows that the substrate stores of a volume gives the
/// page value with the largest sequence number not above the one asked
/// for, and `Empty` where there is none: where every key of the page
/// partition is the key of a page, the last row of the scanned range is
/// that value's row.
pub proof fn law_read_scan(
    substrate: Substrate,
    vid: VolumeId,
    volume: Volume,
    lsn: u64,
    offset: u32,
    found: Option<Seq<u8>>,
)
    requires
        volume.inv(),
        substrate.stores(vid, volume),
        forall|key: Seq<u8>| #[trigger] substrate.pages.contains_key(key) ==> PageKey::parse(key) is Ok,
        scan_finds(substrate, vid, lsn, offset, found),
    ensures
        read_found(
            lsn,
            match found {
                Some(key) => Some((key, substrate.pages[key])),
                None => None,
            },
        ) == Ok::<(u64, PageContent), StorageErr>(volume.read(lsn, offset)),
{
    match found {
        Some(key) => {
            let parsed = PageKey::parse(key)->Ok_0;
            parsed.lemma_round_trip(key);
            parsed.lemma_range(vid, offset, lsn);
            assert(parsed.bytes() == key);
            assert(holds(
                substrate.pages,
                (PageKey { vid, offset, lsn: parsed.lsn }).bytes(),
                if volume.pages.contains_key((offset, parsed.lsn)) {
                    Some(volume.pages[(offset, parsed.lsn)].stored())
                } else {
                    None
                },
            ));
            let content = volume.pages[(offset, parsed.lsn)];
            content.lemma_round_trip(content.stored());
            assert(volume.visible(lsn, offset, parsed.lsn));
            assert forall|other: u64| #[trigger]
                volume.visible(lsn, offset, other) implies other <= parsed.lsn by {
                let rival = PageKey { vid, offset, lsn: other };
                assert(holds(
                    substrate.pages,
                    rival.bytes(),
                    if volume.pages.contains_key((offset, other)) {
                        Some(volume.pages[(offset, other)].stored())
                    } else {
                        None
                    },
                ));
                rival.lemma_range(vid, offset, lsn);
                rival.lemma_order(parsed);
            }
            assert(volume.latest(lsn, offset, parsed.lsn));
            volume.lemma_read_latest(lsn, offset, parsed.lsn);
        },
        None => {
            assert forall|at: u64| !volume.visible(lsn, offset, at) by {
                if volume.visible(lsn, offset, at) {
                    let rival = PageKey { vid, offset, lsn: at };
                    assert(holds(
                        substrate.pages,
                        rival.bytes(),
                        if volume.pages.contains_key((offset, at)) {
                            Some(volume.pages[(offset, at)].stored())
                        } else {
                            None
                        },
                    ));
                    rival.lemma_range(vid, offset, lsn);
                }
            }
        },
    }
}

} // verus!
