use std::collections::BTreeMap;

use graft::batch::{Batch, Notice, Write};
use graft::error::{BitmapErr, LayoutErr, PageValueErr, StorageErr};
use graft::memtable::Memtable;
use graft::page::{Page, PageValue};
use graft::rows::{Partition, RawWrite};
use graft::snapshot::Snapshot;
use graft::storage::{RemoteSnapshot, Storage};
use graft::volume_id::VolumeId;
use graft::volume_state::{
    SyncDirection, VolumeConfig, VolumeState, VolumeStateTag, VolumeStatus, Watermarks,
};
use splinter_rs::{SplinterRead, SplinterRef};

/// An ordered key-value store with three partitions, held in memory.
struct Substrate {
    volumes: BTreeMap<Vec<u8>, Vec<u8>>,
    pages: BTreeMap<Vec<u8>, Vec<u8>>,
    commits: BTreeMap<Vec<u8>, Vec<u8>>,
}

impl Substrate {
    fn new() -> Self {
        Substrate { volumes: BTreeMap::new(), pages: BTreeMap::new(), commits: BTreeMap::new() }
    }

    fn apply(&mut self, batch: &Batch) {
        for raw in batch.encode() {
            let RawWrite { partition, key, value } = raw;
            let map = match partition {
                Partition::Volumes => &mut self.volumes,
                Partition::Pages => &mut self.pages,
                Partition::Commits => &mut self.commits,
            };
            match value {
                Some(value) => {
                    map.insert(key, value);
                }
                None => {
                    map.remove(&key);
                }
            }
        }
    }

    fn prefix(map: &BTreeMap<Vec<u8>, Vec<u8>>, vid: &VolumeId) -> Vec<(Vec<u8>, Vec<u8>)> {
        let prefix = vid.to_bytes();
        map.iter()
            .filter(|(k, _)| k.starts_with(&prefix))
            .map(|(k, v)| (k.clone(), v.clone()))
            .collect()
    }

    fn state(&self, vid: &VolumeId) -> VolumeState {
        Storage::volume_state(vid, &Self::prefix(&self.volumes, vid)).unwrap()
    }

    fn snapshot(&self, vid: &VolumeId) -> Option<Snapshot> {
        let key = graft::keys::VolumeStateKey::new(*vid, VolumeStateTag::Snapshot).to_bytes();
        Storage::snapshot(self.volumes.get(&key).map(|v| v.as_slice())).unwrap()
    }

    fn status(&self, vid: &VolumeId) -> VolumeStatus {
        let key = graft::keys::VolumeStateKey::new(*vid, VolumeStateTag::Status).to_bytes();
        Storage::get_volume_status(self.volumes.get(&key).map(|v| v.as_slice())).unwrap()
    }

    fn commit(
        &mut self,
        vid: &VolumeId,
        snapshot: Option<Snapshot>,
        memtable: &Memtable,
    ) -> Result<Snapshot, StorageErr> {
        let latest = self.snapshot(vid);
        let (snapshot, batch) = Storage::commit(vid, snapshot, memtable, latest)?;
        self.apply(&batch);
        Ok(snapshot)
    }

    fn read(&self, vid: &VolumeId, lsn: u64, offset: u32) -> (u64, PageValue) {
        let (first, last) = Storage::read_range(vid, lsn, offset);
        let found = self.pages.range(first..=last).next_back();
        Storage::read(lsn, found.map(|(k, v)| (k.as_slice(), v.as_slice()))).unwrap()
    }

    fn commit_rows(&self, vid: &VolumeId) -> Vec<(u64, Vec<u32>)> {
        Self::prefix(&self.commits, vid)
            .into_iter()
            .map(|(k, v)| {
                let key = graft::keys::CommitKey::from_bytes(&k).unwrap();
                let offsets = SplinterRef::from_bytes(v).unwrap().iter().collect();
                (key.lsn(), offsets)
            })
            .collect()
    }

    fn receive_remote_commit(
        &mut self,
        vid: &VolumeId,
        remote: RemoteSnapshot,
        changed: &Vec<u32>,
    ) -> Result<(), StorageErr> {
        let (batch, outcome) = Storage::receive_remote_commit(&self.state(vid), remote, changed);
        self.apply(&batch);
        outcome
    }

    fn reset_volume_to_remote(
        &mut self,
        vid: &VolumeId,
        remote: RemoteSnapshot,
        changed: &Vec<u32>,
    ) -> Result<(), StorageErr> {
        let (batch, outcome) = Storage::reset_volume_to_remote(
            &self.state(vid),
            &self.commit_rows(vid),
            remote,
            changed,
        );
        self.apply(&batch);
        outcome
    }
}

fn vid(n: u64) -> VolumeId {
    VolumeId::from_halves(0x0102_0304_0506_0708, n)
}

fn memtable(pages: &[(u32, u8)]) -> Memtable {
    let mut memtable = Memtable::new();
    for &(offset, fill) in pages {
        memtable.insert(offset, Page::filled(fill));
    }
    memtable
}

/// Two local commits on a fresh volume: page 0, then pages 0 and 1.
fn two_commits(store: &mut Substrate, vid: &VolumeId) -> (Snapshot, Snapshot) {
    let snap1 = store.commit(vid, None, &memtable(&[(0, 1)])).unwrap();
    let snap2 = store.commit(vid, Some(snap1), &memtable(&[(0, 2), (1, 3)])).unwrap();
    (snap1, snap2)
}

#[test]
fn test_query_volumes() {
    let mut storage = Substrate::new();

    let mut memtable = Memtable::default();
    memtable.insert(0, Page::filled(0x42));

    let mut vids = [vid(17), vid(5)];
    vids.sort();

    // first volume has two commits, and is configured to pull
    storage.apply(&Storage::set_volume_config(&vids[0], VolumeConfig::new(SyncDirection::Pull)));
    let snapshot = storage.commit(&vids[0], None, &memtable).unwrap();
    storage.commit(&vids[0], Some(snapshot), &memtable).unwrap();

    // second volume has one commit, and is configured to push
    storage.apply(&Storage::set_volume_config(&vids[1], VolumeConfig::new(SyncDirection::Push)));
    storage.commit(&vids[1], None, &memtable).unwrap();

    let rows: Vec<(Vec<u8>, Vec<u8>)> =
        storage.volumes.iter().map(|(k, v)| (k.clone(), v.clone())).collect();

    // ensure that we can query back out the snapshots
    let sync = SyncDirection::Both;
    let found = Storage::query_volumes(&rows, sync, None).unwrap();
    let mut iter = found.iter();

    // check the first volume
    let state = iter.next().unwrap();
    assert_eq!(state.vid(), &vids[0]);
    assert_eq!(state.config().sync(), SyncDirection::Pull);
    let snapshot = state.snapshot().unwrap();
    assert_eq!(snapshot.local(), 2);
    assert_eq!(snapshot.pages(), 1);

    // check the second volume
    let state = iter.next().unwrap();
    assert_eq!(state.vid(), &vids[1]);
    assert_eq!(state.config().sync(), SyncDirection::Push);
    let snapshot = state.snapshot().unwrap();
    assert_eq!(snapshot.local(), 1);
    assert_eq!(snapshot.pages(), 1);

    // iter is empty
    assert!(iter.next().is_none());

    // verify that the sync direction filter works
    let sync = SyncDirection::Push;
    let found = Storage::query_volumes(&rows, sync, None).unwrap();
    let mut iter = found.iter();

    // should be the second volume
    let state = iter.next().unwrap();
    assert_eq!(state.vid(), &vids[1]);
    assert_eq!(state.config().sync(), SyncDirection::Push);
    let snapshot = state.snapshot().unwrap();
    assert_eq!(snapshot.local(), 1);
    assert_eq!(snapshot.pages(), 1);

    // iter is empty
    assert!(iter.next().is_none());

    // verify that the volume id filter works
    let sync = SyncDirection::Both;
    let vid_set = vec![vids[0]];
    let found = Storage::query_volumes(&rows, sync, Some(&vid_set)).unwrap();
    let mut iter = found.iter();

    // should be the first volume
    let state = iter.next().unwrap();
    assert_eq!(state.vid(), &vids[0]);

    // iter is empty
    assert!(iter.next().is_none());
}

#[test]
fn subscribers_hear_of_commits_that_went_through() {
    let vid = vid(16);
    let (_, batch) = Storage::commit(&vid, None, &memtable(&[(0, 1)]), None).unwrap();
    assert_eq!(batch.notice(), Some(Notice::LocalChanged));

    let state = VolumeState::new(vid);
    let remote = RemoteSnapshot { lsn: 2, pages: 1 };
    let (batch, outcome) = Storage::receive_remote_commit(&state, remote, &vec![0]);
    assert_eq!(outcome, Ok(()));
    assert_eq!(batch.notice(), Some(Notice::RemoteChanged));

    let mut store = Substrate::new();
    two_commits(&mut store, &vid);
    let (batch, outcome) = Storage::receive_remote_commit(&store.state(&vid), remote, &vec![0]);
    assert_eq!(outcome, Err(StorageErr::RemoteConflict));
    assert_eq!(batch.notice(), None);
    let (batch, outcome) = Storage::reset_volume_to_remote(
        &store.state(&vid),
        &store.commit_rows(&vid),
        remote,
        &vec![0],
    );
    assert_eq!(outcome, Ok(()));
    assert_eq!(batch.notice(), Some(Notice::RemoteChanged));
    assert_eq!(Storage::set_volume_config(&vid, VolumeConfig::default()).notice(), None);
}

#[test]
fn fresh_volume_two_local_commits() {
    let mut store = Substrate::new();
    let vid = vid(1);
    let snap1 = store.commit(&vid, None, &memtable(&[(0, 1)])).unwrap();
    assert_eq!(snap1, Snapshot::new(1, None, 1));
    let snap2 = store.commit(&vid, Some(snap1), &memtable(&[(0, 2), (1, 3)])).unwrap();
    assert_eq!(snap2, Snapshot::new(2, None, 2));
    assert_eq!(store.read(&vid, 2, 0), (2, PageValue::Available(Page::filled(2))));
    assert_eq!(store.read(&vid, 1, 0), (1, PageValue::Available(Page::filled(1))));
    // a page that has not changed since is found at its earlier sequence number
    assert_eq!(store.read(&vid, 1, 1), (1, PageValue::Empty));
    assert_eq!(store.read(&vid, 2, 1), (2, PageValue::Available(Page::filled(3))));
    assert_eq!(store.read(&vid, 7, 1), (2, PageValue::Available(Page::filled(3))));
    assert_eq!(store.read(&vid, 2, 9), (2, PageValue::Empty));
}

#[test]
fn commit_then_read_returns_the_written_pages() {
    let mut store = Substrate::new();
    let vid = vid(2);
    let written = [(3u32, 10u8), (0, 11), (200, 12)];
    let snapshot = store.commit(&vid, None, &memtable(&written)).unwrap();
    assert_eq!(snapshot, Snapshot::new(1, None, 201));
    for (offset, fill) in written {
        assert_eq!(
            store.read(&vid, snapshot.local(), offset),
            (1, PageValue::Available(Page::filled(fill)))
        );
    }
}

#[test]
fn commit_on_a_stale_snapshot_is_refused() {
    let mut store = Substrate::new();
    let vid = vid(3);
    let snap1 = store.commit(&vid, None, &memtable(&[(0, 1)])).unwrap();
    // two writers build on snap1: the first wins
    let first = store.commit(&vid, Some(snap1), &memtable(&[(0, 2)]));
    assert_eq!(first, Ok(Snapshot::new(2, None, 1)));
    let second = store.commit(&vid, Some(snap1), &memtable(&[(0, 3)]));
    assert_eq!(second, Err(StorageErr::ConcurrentWrite));
    assert_eq!(store.read(&vid, 2, 0), (2, PageValue::Available(Page::filled(2))));
    assert_eq!(store.snapshot(&vid), Some(Snapshot::new(2, None, 1)));
    // a writer without a snapshot is refused once the volume has one
    let third = store.commit(&vid, None, &memtable(&[(0, 4)]));
    assert_eq!(third, Err(StorageErr::ConcurrentWrite));
}

#[test]
fn empty_memtable_still_advances_the_lsn() {
    let mut store = Substrate::new();
    let vid = vid(4);
    let snap1 = store.commit(&vid, None, &memtable(&[(4, 1)])).unwrap();
    assert_eq!(snap1, Snapshot::new(1, None, 5));
    let snap2 = store.commit(&vid, Some(snap1), &Memtable::new()).unwrap();
    // the page count never shrinks
    assert_eq!(snap2, Snapshot::new(2, None, 5));
    assert_eq!(store.commit_rows(&vid), vec![(1, vec![4]), (2, vec![])]);
}

#[test]
fn push_happy_path() {
    let mut store = Substrate::new();
    let vid = vid(5);
    let (_, snap2) = two_commits(&mut store, &vid);

    let state = store.state(&vid);
    assert!(state.has_pending_commits());
    let (snapshot, range, batch) = Storage::prepare_sync_to_remote(&state).unwrap();
    store.apply(&batch);
    assert_eq!(snapshot, snap2);
    assert_eq!(range, (1, 2));
    assert_eq!(
        *store.state(&vid).watermarks(),
        Watermarks::default().with_pending_sync(2)
    );
    assert!(store.state(&vid).is_syncing());

    // the commits of the range come out in order, without a gap
    let (first, last) = Storage::sync_commit_range(&vid, range.0, range.1);
    let mut cursor = range.0;
    let mut seen = Vec::new();
    for (key, value) in store.commits.range(first..=last) {
        assert!(Storage::commit_follows(cursor, key));
        seen.push(Storage::sync_commit(cursor, key, value).unwrap());
        cursor += 1;
    }
    assert_eq!(seen, vec![1, 2]);

    let batch = Storage::complete_sync_to_remote(
        &store.state(&vid),
        snap2,
        RemoteSnapshot { lsn: 5, pages: 2 },
        range,
    );
    store.apply(&batch);
    assert_eq!(store.snapshot(&vid), Some(Snapshot::new(2, Some(5), 2)));
    assert!(store.commits.is_empty());
    let state = store.state(&vid);
    assert_eq!(state.watermarks().last_sync(), Some(2));
    assert_eq!(state.watermarks().pending_sync(), None);
    assert!(!state.has_pending_commits());
    assert!(!state.needs_recovery());
    // the pages stay
    assert_eq!(store.read(&vid, 2, 1), (2, PageValue::Available(Page::filled(3))));
}

#[test]
fn prepare_sync_refuses_a_volume_that_needs_recovery() {
    let mut store = Substrate::new();
    let vid = vid(6);
    two_commits(&mut store, &vid);
    let (_, _, batch) = Storage::prepare_sync_to_remote(&store.state(&vid)).unwrap();
    store.apply(&batch);
    // a remote commit arrives while the push is in flight
    let refused = store.receive_remote_commit(&vid, RemoteSnapshot { lsn: 3, pages: 1 }, &vec![0]);
    assert_eq!(refused, Err(StorageErr::RemoteConflict));
    let state = store.state(&vid);
    assert!(state.needs_recovery());
    assert_eq!(
        Storage::prepare_sync_to_remote(&state).map(|p| p.1),
        Err(StorageErr::VolumeNeedsRecovery)
    );
    let (batch, outcome) =
        Storage::receive_remote_commit(&state, RemoteSnapshot { lsn: 3, pages: 1 }, &vec![0]);
    assert_eq!(outcome, Err(StorageErr::VolumeNeedsRecovery));
    assert!(batch.is_empty());
}

#[test]
fn rollback_takes_pending_sync_back() {
    let mut store = Substrate::new();
    let vid = vid(7);
    two_commits(&mut store, &vid);
    let (_, _, batch) = Storage::prepare_sync_to_remote(&store.state(&vid)).unwrap();
    store.apply(&batch);

    let key = graft::keys::VolumeStateKey::new(vid, VolumeStateTag::Watermarks).to_bytes();
    let row = store.volumes.get(&key).cloned();
    let batch = Storage::rollback_sync_to_remote(&vid, row.as_deref(), false).unwrap();
    store.apply(&batch);
    let state = store.state(&vid);
    assert_eq!(*state.watermarks(), Watermarks::default());
    assert_eq!(state.status(), VolumeStatus::Okay);
    assert!(!state.is_syncing());
    assert!(state.has_pending_commits());

    // a rejection by the remote is recorded in the status
    let batch = Storage::rollback_sync_to_remote(&vid, row.as_deref(), true).unwrap();
    store.apply(&batch);
    assert_eq!(store.status(&vid), VolumeStatus::RejectedCommit);

    // without a watermarks row the rollback writes the default
    let batch = Storage::rollback_sync_to_remote(&vid, None, false).unwrap();
    assert_eq!(batch.writes(), &vec![Write::PutWatermarks(Watermarks::default())]);

    // a corrupt row is reported
    assert_eq!(
        Storage::rollback_sync_to_remote(&vid, Some(&[1, 2, 3]), false),
        Err(StorageErr::CorruptVolumeState(VolumeStateTag::Watermarks, LayoutErr::InvalidSize))
    );
}

#[test]
fn remote_conflict() {
    let mut store = Substrate::new();
    let vid = vid(8);
    let (_, snap2) = two_commits(&mut store, &vid);
    let pages_before = store.pages.clone();
    let commits_before = store.commits.clone();

    let refused = store.receive_remote_commit(&vid, RemoteSnapshot { lsn: 7, pages: 1 }, &vec![0]);
    assert_eq!(refused, Err(StorageErr::RemoteConflict));
    assert_eq!(store.status(&vid), VolumeStatus::Conflict);
    // the state is unchanged otherwise
    assert_eq!(store.snapshot(&vid), Some(snap2));
    assert_eq!(*store.state(&vid).watermarks(), Watermarks::default());
    assert_eq!(store.pages, pages_before);
    assert_eq!(store.commits, commits_before);
}

#[test]
fn reset_to_remote_then_read_past_a_pending() {
    let mut store = Substrate::new();
    let vid = vid(9);
    two_commits(&mut store, &vid);
    let _ = store.receive_remote_commit(&vid, RemoteSnapshot { lsn: 7, pages: 1 }, &vec![0]);
    assert_eq!(store.status(&vid), VolumeStatus::Conflict);

    store
        .reset_volume_to_remote(&vid, RemoteSnapshot { lsn: 7, pages: 1 }, &vec![0])
        .unwrap();
    assert_eq!(store.snapshot(&vid), Some(Snapshot::new(1, Some(7), 1)));
    assert!(store.commits.is_empty());
    assert_eq!(store.status(&vid), VolumeStatus::Okay);
    let state = store.state(&vid);
    assert_eq!(state.watermarks().last_sync(), Some(1));
    assert_eq!(state.watermarks().pending_sync(), Some(1));
    assert!(!state.has_pending_commits());
    // the pages at sequence number 2 are gone, page 0 at 1 is pending
    assert_eq!(store.pages.len(), 1);
    assert_eq!(store.read(&vid, 1, 0), (1, PageValue::Pending));
    assert_eq!(store.read(&vid, 2, 1), (2, PageValue::Empty));

    // a query at the exact sequence number finds the pending marker
    let keys = Storage::query_pages(&vid, 1, &vec![0, 1]);
    let answers: Vec<_> = keys
        .iter()
        .map(|key| {
            let row = store.pages.get(&key.to_bytes());
            Storage::queried_page(key.offset(), row.map(|v| v.as_slice())).unwrap()
        })
        .collect();
    assert_eq!(answers, vec![(0, Some(PageValue::Pending)), (1, None)]);
}

#[test]
fn reset_goes_back_to_the_last_sync() {
    let mut store = Substrate::new();
    let vid = vid(10);
    let (_, snap2) = two_commits(&mut store, &vid);
    // push both commits
    let (_, range, batch) = Storage::prepare_sync_to_remote(&store.state(&vid)).unwrap();
    store.apply(&batch);
    let batch = Storage::complete_sync_to_remote(
        &store.state(&vid),
        snap2,
        RemoteSnapshot { lsn: 5, pages: 2 },
        range,
    );
    store.apply(&batch);
    // two more local commits, then a reset
    let snap3 = store.commit(&vid, store.snapshot(&vid), &memtable(&[(1, 8)])).unwrap();
    let snap4 = store.commit(&vid, Some(snap3), &memtable(&[(5, 9)])).unwrap();
    assert_eq!(snap4, Snapshot::new(4, Some(5), 6));
    store
        .reset_volume_to_remote(&vid, RemoteSnapshot { lsn: 6, pages: 3 }, &vec![2])
        .unwrap();
    assert_eq!(store.snapshot(&vid), Some(Snapshot::new(3, Some(6), 3)));
    let state = store.state(&vid);
    assert_eq!(state.watermarks().last_sync(), Some(3));
    assert_eq!(state.watermarks().pending_sync(), Some(3));
    assert!(store.commits.is_empty());
    // what was synced stays, what was not is gone, the remote change is pending
    assert_eq!(store.read(&vid, 3, 1), (2, PageValue::Available(Page::filled(3))));
    assert_eq!(store.read(&vid, 3, 5), (3, PageValue::Empty));
    assert_eq!(store.read(&vid, 3, 2), (3, PageValue::Pending));
}

#[test]
fn remote_commit_moves_both_watermarks() {
    let mut store = Substrate::new();
    let vid = vid(11);
    store
        .receive_remote_commit(&vid, RemoteSnapshot { lsn: 4, pages: 9 }, &vec![3, 1, 3])
        .unwrap();
    assert_eq!(store.snapshot(&vid), Some(Snapshot::new(1, Some(4), 9)));
    let state = store.state(&vid);
    assert_eq!(state.watermarks().last_sync(), Some(1));
    assert_eq!(state.watermarks().pending_sync(), Some(1));
    // nothing is left to push
    assert!(!state.has_pending_commits());
    assert_eq!(store.read(&vid, 1, 3), (1, PageValue::Pending));
    assert_eq!(store.read(&vid, 1, 1), (1, PageValue::Pending));
    assert_eq!(store.read(&vid, 1, 2), (1, PageValue::Empty));

    // a second remote commit follows at the next local sequence number
    store
        .receive_remote_commit(&vid, RemoteSnapshot { lsn: 5, pages: 9 }, &vec![])
        .unwrap();
    assert_eq!(store.snapshot(&vid), Some(Snapshot::new(2, Some(5), 9)));
}

#[test]
fn received_pages_replace_pending_markers() {
    let mut store = Substrate::new();
    let vid = vid(12);
    store
        .receive_remote_commit(&vid, RemoteSnapshot { lsn: 4, pages: 2 }, &vec![0, 1])
        .unwrap();
    let batch =
        Storage::receive_pages(&vid, 1, &vec![(1, vec![7u8; 4096]), (0, vec![0x50])]).unwrap();
    store.apply(&batch);
    assert_eq!(store.read(&vid, 1, 1), (1, PageValue::Available(Page::filled(7))));
    assert_eq!(store.read(&vid, 1, 0), (1, PageValue::Pending));

    assert_eq!(
        Storage::receive_pages(&vid, 1, &vec![(1, vec![7u8; 4096]), (0, vec![7u8; 100])]),
        Err(StorageErr::CorruptPage(PageValueErr::InvalidLength))
    );
    assert_eq!(
        Storage::receive_pages(&vid, 1, &vec![(0, vec![0x51])]),
        Err(StorageErr::CorruptPage(PageValueErr::InvalidMark))
    );
}

#[test]
fn corrupt_rows_are_reported() {
    let vid = vid(13);
    let good_key = graft::keys::PageKey::new(vid, 0, 1).to_bytes();
    assert_eq!(
        Storage::read(1, Some((&[1, 2, 3], &[0x50]))),
        Err(StorageErr::CorruptKey(LayoutErr::InvalidSize))
    );
    assert_eq!(
        Storage::read(1, Some((&[0u8; 28], &[0x50]))),
        Err(StorageErr::CorruptKey(LayoutErr::InvalidData))
    );
    assert_eq!(
        Storage::read(1, Some((&good_key, &[1, 2]))),
        Err(StorageErr::CorruptPage(PageValueErr::InvalidLength))
    );
    assert_eq!(
        Storage::snapshot(Some(&[0u8; 21])),
        Err(StorageErr::CorruptSnapshot(LayoutErr::InvalidData))
    );
    assert_eq!(
        Storage::snapshot(Some(&[0u8; 20])),
        Err(StorageErr::CorruptSnapshot(LayoutErr::InvalidSize))
    );
    assert_eq!(Storage::snapshot(None), Ok(None));
    assert_eq!(
        Storage::get_volume_status(Some(&[9])),
        Err(StorageErr::CorruptVolumeState(VolumeStateTag::Status, LayoutErr::InvalidData))
    );
    assert_eq!(Storage::get_volume_status(None), Ok(VolumeStatus::Okay));
    assert_eq!(Storage::get_volume_status(Some(&[1])), Ok(VolumeStatus::Conflict));

    let state_key = graft::keys::VolumeStateKey::new(vid, VolumeStateTag::Config).to_bytes();
    assert_eq!(
        Storage::volume_state(&vid, &vec![(state_key.clone(), vec![4])]),
        Err(StorageErr::CorruptVolumeConfig(LayoutErr::InvalidData))
    );
    let snapshot_key = graft::keys::VolumeStateKey::new(vid, VolumeStateTag::Snapshot).to_bytes();
    assert_eq!(
        Storage::volume_state(&vid, &vec![(state_key.clone(), vec![1]), (snapshot_key, vec![])]),
        Err(StorageErr::CorruptSnapshot(LayoutErr::InvalidSize))
    );
    let watermarks_key =
        graft::keys::VolumeStateKey::new(vid, VolumeStateTag::Watermarks).to_bytes();
    assert_eq!(
        Storage::volume_state(&vid, &vec![(watermarks_key, vec![0u8; 16])]),
        Err(StorageErr::CorruptVolumeState(VolumeStateTag::Watermarks, LayoutErr::InvalidSize))
    );
    let mut bad_tag = state_key.clone();
    bad_tag[16] = 9;
    assert_eq!(
        Storage::volume_state(&vid, &vec![(bad_tag, vec![1])]),
        Err(StorageErr::CorruptKey(LayoutErr::InvalidData))
    );
    assert_eq!(
        Storage::query_volumes(&vec![(vec![1, 2], vec![1])], SyncDirection::Both, None),
        Err(StorageErr::CorruptKey(LayoutErr::InvalidSize))
    );
}

#[test]
fn every_offset_of_a_commit_has_its_page() {
    let mut store = Substrate::new();
    let vid = vid(18);
    let snap1 = store.commit(&vid, None, &memtable(&[(0, 1), (9, 2)])).unwrap();
    let snap2 = store.commit(&vid, Some(snap1), &memtable(&[(9, 3), (4, 4), (1000, 5)])).unwrap();
    store.commit(&vid, Some(snap2), &Memtable::new()).unwrap();
    let commits = store.commit_rows(&vid);
    assert_eq!(commits, vec![(1, vec![0, 9]), (2, vec![4, 9, 1000]), (3, vec![])]);
    for (lsn, offsets) in commits {
        for offset in offsets {
            let key = graft::keys::PageKey::new(vid, offset, lsn).to_bytes();
            assert!(store.pages.contains_key(&key));
        }
    }
    // and no page is past the local sequence number
    for key in store.pages.keys() {
        assert!(graft::keys::PageKey::from_bytes(key).unwrap().lsn() <= 3);
    }
}

#[test]
fn commit_bitmaps_are_framed_and_checked() {
    let mut store = Substrate::new();
    let vid = vid(14);
    store.commit(&vid, None, &memtable(&[(7, 1), (300, 2), (70000, 3)])).unwrap();
    let (key, value) = store.commits.iter().next().unwrap();
    // the stored value is a bitmap of the offsets, not the offsets themselves
    assert_eq!(&value[..4], &[0xDA, 0xAE, 0x12, 0xDF]);
    let decoded: Vec<u32> = SplinterRef::from_bytes(value.clone()).unwrap().iter().collect();
    assert_eq!(decoded, vec![7, 300, 70000]);
    assert_eq!(Storage::sync_commit(1, key, value), Ok(1));

    assert_eq!(
        Storage::sync_commit(1, key, &[0xDA, 0xAE]),
        Err(StorageErr::CorruptCommit(BitmapErr::InvalidHeader))
    );
    assert_eq!(
        Storage::sync_commit(1, key, &[0, 1, 2, 3, 4, 5, 6, 7]),
        Err(StorageErr::CorruptCommit(BitmapErr::InvalidMagic))
    );
    assert_eq!(
        Storage::sync_commit(1, &[0u8; 3], value),
        Err(StorageErr::CorruptKey(LayoutErr::InvalidSize))
    );
    assert!(!Storage::commit_follows(2, key));
    assert!(Storage::commit_follows(1, key));
}

#[test]
fn complete_sync_removes_the_synced_range_only() {
    let vid = vid(15);
    let state = VolumeState {
        vid,
        config: VolumeConfig::default(),
        snapshot: Some(Snapshot::new(9, Some(2), 4)),
        watermarks: Watermarks { last_sync: Some(5), pending_sync: Some(8) },
        status: VolumeStatus::Okay,
    };
    let batch = Storage::complete_sync_to_remote(
        &state,
        Snapshot::new(8, Some(2), 4),
        RemoteSnapshot { lsn: 3, pages: 4 },
        (6, 8),
    );
    assert_eq!(
        batch.writes(),
        &vec![
            Write::PutSnapshot(Snapshot::new(9, Some(3), 4)),
            Write::PutWatermarks(Watermarks { last_sync: Some(8), pending_sync: None }),
            Write::RemoveCommit { lsn: 6 },
            Write::RemoveCommit { lsn: 7 },
            Write::RemoveCommit { lsn: 8 },
        ]
    );
    // an empty range removes nothing
    let batch = Storage::complete_sync_to_remote(
        &state,
        Snapshot::new(8, Some(2), 4),
        RemoteSnapshot { lsn: 3, pages: 4 },
        (8, 6),
    );
    assert_eq!(batch.len(), 2);
    // the last sequence number there is does not wrap
    let batch = Storage::complete_sync_to_remote(
        &state,
        Snapshot::new(8, Some(2), 4),
        RemoteSnapshot { lsn: 3, pages: 4 },
        (u64::MAX, u64::MAX),
    );
    assert_eq!(batch.get(2), &Write::RemoveCommit { lsn: u64::MAX });
}
