use graft::batch::Write;
use graft::error::{PageValueErr, StorageErr};
use graft::fetch::{complete_fetch, is_wanted, plan_fetch};
use graft::keys::PageKey;
use graft::memtable::Memtable;
use graft::object_store::ObjectStoreConfig;
use graft::page::{Page, PageValue};
use graft::rows::Partition;
use graft::snapshot::Snapshot;
use graft::storage::Storage;
use graft::txn::{ReadOutcome, ReadTxn, WriteTxn};
use graft::volume_id::VolumeId;
use graft::volume_reader::VolumeReader;
use splinter_rs::{SplinterRead, SplinterRef};

fn vid() -> VolumeId {
    VolumeId::from_halves(7, 9)
}

#[test]
fn memtable_keeps_one_page_per_offset_in_order() {
    let mut memtable = Memtable::new();
    assert!(memtable.is_empty());
    assert_eq!(memtable.last_offset(), None);
    memtable.insert(5, Page::filled(1));
    memtable.insert(2, Page::filled(2));
    memtable.insert(9, Page::filled(3));
    memtable.insert(5, Page::filled(4));
    assert_eq!(memtable.len(), 3);
    assert_eq!(memtable.last_offset(), Some(9));
    assert_eq!(
        (0..3).map(|i| memtable.offset_at(i)).collect::<Vec<_>>(),
        vec![2, 5, 9]
    );
    assert_eq!(memtable.page_at(1), &Page::filled(4));
    assert_eq!(memtable.get(5), Some(&Page::filled(4)));
    assert_eq!(memtable.get(2), Some(&Page::filled(2)));
    assert_eq!(memtable.get(3), None);
}

#[test]
fn read_without_a_snapshot_gives_zeros() {
    let txn = ReadTxn::new(vid(), None);
    assert_eq!(txn.read_range(3), None);
    assert_eq!(txn.read(3, None), Ok(ReadOutcome::Page(Page::empty())));
    let reader = VolumeReader::new(vid(), None);
    assert_eq!(reader.read_cached(None), Ok((None, PageValue::Empty)));
    assert_eq!(reader.read(3, None), Ok(ReadOutcome::Page(Page::empty())));
}

#[test]
fn read_at_a_snapshot() {
    let snapshot = Snapshot::new(4, Some(8), 2);
    let txn = ReadTxn::new(vid(), Some(snapshot));
    assert_eq!(txn.vid(), &vid());
    assert_eq!(txn.snapshot(), Some(&snapshot));
    assert_eq!(
        txn.read_range(3),
        Some((PageKey::new(vid(), 3, 1).to_bytes(), PageKey::new(vid(), 3, 4).to_bytes()))
    );

    let key = PageKey::new(vid(), 3, 2).to_bytes();
    let page = vec![6u8; 4096];
    assert_eq!(txn.read(3, Some((&key, &page))), Ok(ReadOutcome::Page(Page::filled(6))));
    assert_eq!(txn.read(3, None), Ok(ReadOutcome::Page(Page::empty())));
    // a pending page is fetched at the remote sequence number of the snapshot
    assert_eq!(
        txn.read(3, Some((&key, &[0x50]))),
        Ok(ReadOutcome::Fetch { remote_lsn: 8, local_lsn: 4, offset: 3 })
    );
    assert_eq!(
        txn.read(3, Some((&key, &[1, 2]))),
        Err(StorageErr::CorruptPage(PageValueErr::InvalidLength))
    );

    let reader = VolumeReader::new(vid(), Some(snapshot));
    assert_eq!(reader.read_cached(Some((&key, &[0x50]))), Ok((Some(2), PageValue::Pending)));
    assert_eq!(reader.read_cached(None), Ok((Some(4), PageValue::Empty)));
    assert_eq!(
        reader.read(3, Some((&key, &[0x50]))),
        Ok(ReadOutcome::Fetch { remote_lsn: 8, local_lsn: 4, offset: 3 })
    );
    assert_eq!(reader.into_parts(), (vid(), Some(snapshot)));

    // without a remote sequence number a pending page reads as zeros
    let local = ReadTxn::new(vid(), Some(Snapshot::new(4, None, 2)));
    assert_eq!(local.read(3, Some((&key, &[0x50]))), Ok(ReadOutcome::Page(Page::empty())));
}

#[test]
fn write_txn_reads_its_own_writes() {
    let snapshot = Snapshot::new(4, None, 2);
    let mut txn = ReadTxn::new(vid(), Some(snapshot)).upgrade();
    assert_eq!(txn.vid(), &vid());
    assert_eq!(txn.snapshot(), Some(&snapshot));
    assert_eq!(txn.last_offset(), None);
    let key = PageKey::new(vid(), 1, 3).to_bytes();
    let stored = vec![5u8; 4096];
    assert_eq!(txn.read(1, Some((&key, &stored))), Ok(ReadOutcome::Page(Page::filled(5))));

    txn.write(1, Page::filled(8));
    assert_eq!(txn.read_written(1), Some(Page::filled(8)));
    assert_eq!(txn.read_written(0), None);
    assert_eq!(txn.read(1, Some((&key, &stored))), Ok(ReadOutcome::Page(Page::filled(8))));
    txn.write(1, Page::filled(9));
    assert_eq!(txn.read(1, None), Ok(ReadOutcome::Page(Page::filled(9))));
    assert_eq!(txn.last_offset(), Some(1));
}

#[test]
fn write_txn_commits_on_its_snapshot() {
    let snapshot = Snapshot::new(4, Some(2), 2);
    let mut txn = WriteTxn::new(ReadTxn::new(vid(), Some(snapshot)));
    txn.write(6, Page::filled(1));
    txn.write(0, Page::filled(2));
    let (reader, batch) = txn.commit(Some(snapshot)).unwrap();
    assert_eq!(reader, ReadTxn::new(vid(), Some(Snapshot::new(5, Some(2), 7))));
    assert_eq!(batch.vid(), &vid());
    assert_eq!(
        batch.writes(),
        &vec![
            Write::PutPage { offset: 0, lsn: 5, value: PageValue::Available(Page::filled(2)) },
            Write::PutPage { offset: 6, lsn: 5, value: PageValue::Available(Page::filled(1)) },
            Write::PutSnapshot(Snapshot::new(5, Some(2), 7)),
            Write::PutCommit { lsn: 5, offsets: vec![0, 6] },
        ]
    );
    let rows = batch.encode();
    assert_eq!(
        rows.iter().map(|row| row.partition).collect::<Vec<_>>(),
        vec![Partition::Pages, Partition::Pages, Partition::Volumes, Partition::Commits]
    );
    assert_eq!(rows[1].key, PageKey::new(vid(), 6, 5).to_bytes());
    assert_eq!(rows[1].value, Some(vec![1u8; 4096]));
    assert_eq!(rows[2].value, Some(Snapshot::new(5, Some(2), 7).to_bytes()));

    let mut stale = WriteTxn::new(ReadTxn::new(vid(), Some(snapshot)));
    stale.write(0, Page::filled(3));
    assert_eq!(
        stale.commit(Some(Snapshot::new(5, Some(2), 7))).map(|c| c.0),
        Err(StorageErr::ConcurrentWrite)
    );
}

#[test]
fn removals_have_no_value() {
    let batch = Storage::complete_sync_to_remote(
        &graft::volume_state::VolumeState {
            vid: vid(),
            config: Default::default(),
            snapshot: Some(Snapshot::new(1, None, 1)),
            watermarks: graft::volume_state::Watermarks { last_sync: None, pending_sync: Some(1) },
            status: graft::volume_state::VolumeStatus::Okay,
        },
        Snapshot::new(1, None, 1),
        graft::storage::RemoteSnapshot { lsn: 1, pages: 1 },
        (1, 1),
    );
    let rows = batch.encode();
    assert_eq!(rows.len(), 3);
    assert_eq!(rows[2].partition, Partition::Commits);
    assert_eq!(rows[2].key, graft::keys::CommitKey::new(vid(), 1).to_bytes());
    assert_eq!(rows[2].value, None);
}

#[test]
fn fetch_asks_for_the_pending_pages_once() {
    let candidates = vec![
        (4, 2, PageValue::Pending),
        (5, 3, PageValue::Available(Page::filled(1))),
        (9, 1, PageValue::Pending),
        (4, 2, PageValue::Pending),
        (7, 3, PageValue::Empty),
    ];
    let plan = plan_fetch(&candidates);
    assert_eq!(plan.wanted, vec![(4, 2), (9, 1)]);
    assert!(is_wanted(&plan.wanted, 9));
    assert!(!is_wanted(&plan.wanted, 5));
    // the request carries the bitmap of the wanted offsets
    let asked: Vec<u32> = SplinterRef::from_bytes(plan.graft).unwrap().iter().collect();
    assert_eq!(asked, vec![4, 9]);

    let nothing = plan_fetch(&vec![(1, 1, PageValue::Empty)]);
    assert_eq!(nothing.wanted, vec![]);
    let asked: Vec<u32> = SplinterRef::from_bytes(nothing.graft).unwrap().iter().collect();
    assert_eq!(asked, Vec::<u32>::new());
}

#[test]
fn fetch_stores_what_came() {
    let wanted = vec![(4, 2), (9, 1), (6, 2)];
    let response = vec![
        (9, vec![1u8; 4096]),
        (3, vec![0u8; 5]),
        (4, vec![2u8; 4096]),
        (9, vec![3u8; 4096]),
    ];
    let (page, batch) = complete_fetch(&vid(), 9, &wanted, &response).unwrap();
    // the last answer for an offset counts
    assert_eq!(page, Page::filled(3));
    assert_eq!(
        batch.writes(),
        &vec![
            Write::PutPage { offset: 4, lsn: 2, value: PageValue::Available(Page::filled(2)) },
            Write::PutPage { offset: 9, lsn: 1, value: PageValue::Available(Page::filled(3)) },
        ]
    );

    // a wanted page that did not come reads as zeros and stays pending
    let (page, batch) = complete_fetch(&vid(), 6, &wanted, &response).unwrap();
    assert_eq!(page, Page::empty());
    assert_eq!(batch.len(), 2);

    let short = vec![(4, vec![2u8; 100])];
    assert_eq!(
        complete_fetch(&vid(), 9, &wanted, &short).map(|f| f.0),
        Err(StorageErr::CorruptPage(PageValueErr::InvalidLength))
    );
}

#[test]
fn object_store_defaults_to_memory() {
    assert_eq!(ObjectStoreConfig::default(), ObjectStoreConfig::Memory);
}
