use graft::codec::{get_be, get_le, put_be, put_le};
use graft::error::{LayoutErr, PageValueErr};
use graft::keys::{CommitKey, PageKey, VolumeStateKey};
use graft::page::{Page, PageValue, PAGESIZE, PENDING_MARK};
use graft::snapshot::Snapshot;
use graft::volume_id::VolumeId;
use graft::volume_state::{
    SyncDirection, VolumeConfig, VolumeState, VolumeStateTag, VolumeStatus, Watermarks,
};

fn vid() -> VolumeId {
    VolumeId::from_halves(0x0102_0304_0506_0708, 0x090a_0b0c_0d0e_0f10)
}

const VID_BYTES: [u8; 16] = [1, 2, 3, 4, 5, 6, 7, 8, 9, 10, 11, 12, 13, 14, 15, 16];

#[test]
fn integers_are_written_in_both_byte_orders() {
    let mut out = vec![0xaa];
    put_be(&mut out, 0x0102_0304, 4);
    put_le(&mut out, 0x0102_0304, 4);
    assert_eq!(out, vec![0xaa, 1, 2, 3, 4, 4, 3, 2, 1]);
    assert_eq!(get_be(&out, 1, 4), 0x0102_0304);
    assert_eq!(get_le(&out, 5, 4), 0x0102_0304);
    assert_eq!(get_be(&out, 1, 0), 0);

    // a narrower width keeps the low-order digits
    let mut out = Vec::new();
    put_be(&mut out, 0x0102_0304, 2);
    assert_eq!(out, vec![3, 4]);

    let mut out = Vec::new();
    put_le(&mut out, u64::MAX - 1, 8);
    assert_eq!(out, vec![0xfe, 0xff, 0xff, 0xff, 0xff, 0xff, 0xff, 0xff]);
    assert_eq!(get_le(&out, 0, 8), u64::MAX - 1);
}

#[test]
fn volume_id_is_its_sixteen_bytes() {
    assert_eq!(vid().to_bytes(), VID_BYTES.to_vec());
    assert_eq!(VolumeId::from_slice(&VID_BYTES), Some(vid()));
    assert_eq!(VolumeId::from_slice(&VID_BYTES[..15]), None);
    let mut longer = vec![0xff];
    longer.extend_from_slice(&VID_BYTES);
    assert_eq!(VolumeId::read_at(&longer, 1), vid());
    // identifiers compare as their bytes do
    assert!(VolumeId::from_halves(1, u64::MAX) < VolumeId::from_halves(2, 0));
}

#[test]
fn volume_state_key_layout() {
    let key = VolumeStateKey::new(vid(), VolumeStateTag::Watermarks);
    let mut expected = VID_BYTES.to_vec();
    expected.push(3);
    assert_eq!(key.to_bytes(), expected);
    assert_eq!(VolumeStateKey::from_bytes(&expected), Ok(key));
    assert_eq!(VolumeStateTag::Config.to_byte(), 1);
    assert_eq!(VolumeStateTag::Snapshot.to_byte(), 2);
    assert_eq!(VolumeStateTag::Status.to_byte(), 4);
    assert_eq!(VolumeStateTag::from_byte(0), None);
    assert_eq!(VolumeStateTag::from_byte(5), None);

    expected[16] = 0;
    assert_eq!(VolumeStateKey::from_bytes(&expected), Err(LayoutErr::InvalidData));
    assert_eq!(VolumeStateKey::from_bytes(&expected[..16]), Err(LayoutErr::InvalidSize));
}

#[test]
fn page_key_layout() {
    let key = PageKey::new(vid(), 0x0a0b_0c0d, 0x0102_0304_0506_0708);
    let mut expected = VID_BYTES.to_vec();
    expected.extend_from_slice(&[0x0a, 0x0b, 0x0c, 0x0d]);
    expected.extend_from_slice(&[1, 2, 3, 4, 5, 6, 7, 8]);
    assert_eq!(expected.len(), 28);
    assert_eq!(key.to_bytes(), expected);
    assert_eq!(PageKey::from_bytes(&expected), Ok(key));
    assert_eq!(key.with_offset(7), PageKey::new(vid(), 7, 0x0102_0304_0506_0708));

    // no key is written with the sequence number zero
    for byte in &mut expected[20..] {
        *byte = 0;
    }
    assert_eq!(PageKey::from_bytes(&expected), Err(LayoutErr::InvalidData));
    assert_eq!(PageKey::from_bytes(&expected[..27]), Err(LayoutErr::InvalidSize));
}

#[test]
fn commit_key_layout() {
    let key = CommitKey::new(vid(), 0x0102_0304_0506_0708);
    let mut expected = VID_BYTES.to_vec();
    expected.extend_from_slice(&[1, 2, 3, 4, 5, 6, 7, 8]);
    assert_eq!(expected.len(), 24);
    assert_eq!(key.to_bytes(), expected);
    assert_eq!(CommitKey::from_bytes(&expected), Ok(key));
    assert_eq!(key.with_lsn(9).lsn(), 9);
    assert_eq!(CommitKey::from_bytes(&VID_BYTES), Err(LayoutErr::InvalidSize));
    assert_eq!(CommitKey::from_bytes(&[0u8; 24]), Err(LayoutErr::InvalidData));
}

#[test]
fn keys_sort_by_offset_then_sequence_number() {
    let keys = [
        PageKey::new(vid(), 0, 1),
        PageKey::new(vid(), 0, 2),
        PageKey::new(vid(), 0, 256),
        PageKey::new(vid(), 0, u64::MAX),
        PageKey::new(vid(), 1, 1),
        PageKey::new(vid(), 255, 7),
        PageKey::new(vid(), 256, 1),
        PageKey::new(VolumeId::from_halves(0x0102_0304_0506_0708, 0x090a_0b0c_0d0e_0f11), 0, 1),
    ];
    for pair in keys.windows(2) {
        assert!(pair[0].to_bytes() < pair[1].to_bytes());
    }
    let commits = [CommitKey::new(vid(), 1), CommitKey::new(vid(), 255), CommitKey::new(vid(), 256)];
    for pair in commits.windows(2) {
        assert!(pair[0].to_bytes() < pair[1].to_bytes());
    }
}

#[test]
fn snapshot_layout() {
    let snapshot = Snapshot::new(2, Some(5), 3);
    let expected = vec![2, 0, 0, 0, 0, 0, 0, 0, 5, 0, 0, 0, 0, 0, 0, 0, 3, 0, 0, 0, 1];
    assert_eq!(snapshot.to_bytes(), expected);
    assert_eq!(Snapshot::from_bytes(&expected), Ok(snapshot));

    let unsynced = Snapshot::new(0x0102, None, 0x0a0b_0c0d);
    let expected = vec![2, 1, 0, 0, 0, 0, 0, 0, 0, 0, 0, 0, 0, 0, 0, 0, 0x0d, 0x0c, 0x0b, 0x0a, 0];
    assert_eq!(unsynced.to_bytes(), expected);
    assert_eq!(Snapshot::from_bytes(&expected), Ok(unsynced));

    // a remote sequence number and its flag go together
    let mut flagged = expected.clone();
    flagged[20] = 1;
    assert_eq!(Snapshot::from_bytes(&flagged), Err(LayoutErr::InvalidData));
    let mut unflagged = expected.clone();
    unflagged[8] = 9;
    assert_eq!(Snapshot::from_bytes(&unflagged), Err(LayoutErr::InvalidData));
    let mut flag = expected.clone();
    flag[20] = 2;
    assert_eq!(Snapshot::from_bytes(&flag), Err(LayoutErr::InvalidData));
    assert_eq!(Snapshot::from_bytes(&expected[..20]), Err(LayoutErr::InvalidSize));
}

#[test]
fn watermarks_layout() {
    let cases = [
        (Watermarks { last_sync: None, pending_sync: None }, 0u8, 0u8, 0u8),
        (Watermarks { last_sync: Some(2), pending_sync: None }, 2, 0, 1),
        (Watermarks { last_sync: None, pending_sync: Some(3) }, 0, 3, 2),
        (Watermarks { last_sync: Some(2), pending_sync: Some(3) }, 2, 3, 3),
    ];
    for (watermarks, last, pending, flags) in cases {
        let mut expected = vec![0u8; 17];
        expected[0] = last;
        expected[8] = pending;
        expected[16] = flags;
        assert_eq!(watermarks.to_bytes(), expected);
        assert_eq!(Watermarks::from_bytes(&expected), Ok(watermarks));
    }
    let mut bad = vec![0u8; 17];
    bad[16] = 4;
    assert_eq!(Watermarks::from_bytes(&bad), Err(LayoutErr::InvalidData));
    bad[16] = 1;
    assert_eq!(Watermarks::from_bytes(&bad), Err(LayoutErr::InvalidData));
    assert_eq!(Watermarks::from_bytes(&bad[..16]), Err(LayoutErr::InvalidSize));
}

#[test]
fn watermarks_moves() {
    let watermarks = Watermarks::default().with_last_sync(2).with_pending_sync(5);
    assert_eq!(watermarks.last_sync(), Some(2));
    assert_eq!(watermarks.pending_sync(), Some(5));
    assert_eq!(
        watermarks.rollback_pending_sync(),
        Watermarks { last_sync: Some(2), pending_sync: Some(2) }
    );
    assert_eq!(
        watermarks.commit_pending_sync(),
        Watermarks { last_sync: Some(5), pending_sync: None }
    );
}

#[test]
fn status_and_config_layout() {
    assert_eq!(VolumeStatus::Okay.to_bytes(), vec![0]);
    assert_eq!(VolumeStatus::Conflict.to_bytes(), vec![1]);
    assert_eq!(VolumeStatus::RejectedCommit.to_bytes(), vec![2]);
    assert_eq!(VolumeStatus::from_bytes(&[2]), Ok(VolumeStatus::RejectedCommit));
    assert_eq!(VolumeStatus::from_bytes(&[3]), Err(LayoutErr::InvalidData));
    assert_eq!(VolumeStatus::from_bytes(&[]), Err(LayoutErr::InvalidSize));

    for (sync, byte) in [
        (SyncDirection::Disabled, 0u8),
        (SyncDirection::Push, 1),
        (SyncDirection::Pull, 2),
        (SyncDirection::Both, 3),
    ] {
        assert_eq!(VolumeConfig::new(sync).to_bytes(), vec![byte]);
        assert_eq!(VolumeConfig::from_bytes(&[byte]), Ok(VolumeConfig::new(sync)));
    }
    assert_eq!(VolumeConfig::from_bytes(&[4]), Err(LayoutErr::InvalidData));
    assert_eq!(VolumeConfig::from_bytes(&[0, 0]), Err(LayoutErr::InvalidSize));
    assert_eq!(VolumeConfig::default().sync(), SyncDirection::Disabled);
}

#[test]
fn sync_directions_match_when_they_share_a_direction() {
    let (off, push, pull, both) = (
        SyncDirection::Disabled,
        SyncDirection::Push,
        SyncDirection::Pull,
        SyncDirection::Both,
    );
    let matching = [
        (off, off),
        (push, push),
        (pull, pull),
        (both, both),
        (push, both),
        (both, push),
        (pull, both),
        (both, pull),
    ];
    for a in [off, push, pull, both] {
        for b in [off, push, pull, both] {
            assert_eq!(a.matches(b), matching.contains(&(a, b)), "{a:?} {b:?}");
        }
    }
}

#[test]
fn page_value_layout() {
    assert_eq!(PAGESIZE, 4096);
    assert_eq!(PageValue::Pending.to_bytes(), vec![PENDING_MARK]);
    assert_eq!(PageValue::Available(Page::filled(3)).to_bytes(), vec![3u8; 4096]);
    assert_eq!(PageValue::Empty.to_bytes(), Vec::<u8>::new());
    assert_eq!(PageValue::from_bytes(&[PENDING_MARK]), Ok(PageValue::Pending));
    assert_eq!(
        PageValue::from_bytes(&vec![9u8; 4096]),
        Ok(PageValue::Available(Page::filled(9)))
    );
    assert_eq!(PageValue::from_bytes(&[0]), Err(PageValueErr::InvalidMark));
    assert_eq!(PageValue::from_bytes(&[]), Err(PageValueErr::InvalidLength));
    assert_eq!(PageValue::from_bytes(&vec![0u8; 4095]), Err(PageValueErr::InvalidLength));

    assert_eq!(PageValue::Pending.try_into_page(), None);
    assert_eq!(PageValue::Empty.try_into_page(), Some(Page::empty()));
    assert_eq!(PageValue::Available(Page::filled(1)).try_into_page(), Some(Page::filled(1)));
    assert!(PageValue::Pending.is_storable());
    assert!(!PageValue::Empty.is_storable());
}

#[test]
fn pages_have_one_length() {
    assert_eq!(Page::from_vec(vec![1u8; 4096]), Some(Page::filled(1)));
    assert_eq!(Page::from_vec(vec![1u8; 4097]), None);
    assert_eq!(Page::from_slice(&[1u8; 10]), None);
    assert_eq!(Page::empty().as_slice(), &[0u8; 4096][..]);
    assert_eq!(Page::filled(7).clone().into_vec(), vec![7u8; 4096]);
}

#[test]
fn volume_state_takes_rows_in() {
    let mut state = VolumeState::new(vid());
    assert_eq!(state.status(), VolumeStatus::Okay);
    assert_eq!(state.snapshot(), None);
    assert!(!state.has_pending_commits());
    assert!(!state.needs_recovery());

    state.accumulate(VolumeStateTag::Snapshot, &Snapshot::new(4, None, 1).to_bytes()).unwrap();
    assert!(state.has_pending_commits());
    let watermarks = Watermarks { last_sync: Some(2), pending_sync: Some(4) };
    state.accumulate(VolumeStateTag::Watermarks, &watermarks.to_bytes()).unwrap();
    assert!(state.has_pending_commits());
    assert!(state.is_syncing());
    // a push in flight needs recovery once the status is not `Okay`
    assert!(!state.needs_recovery());
    state.accumulate(VolumeStateTag::Status, &[2]).unwrap();
    assert!(state.needs_recovery());
    state.accumulate(VolumeStateTag::Config, &[3]).unwrap();
    assert_eq!(state.config().sync(), SyncDirection::Both);

    // a row that cannot be read leaves the state as it was
    let before = state;
    assert_eq!(
        state.accumulate(VolumeStateTag::Snapshot, &[1, 2, 3]),
        Err(graft::error::StorageErr::CorruptSnapshot(LayoutErr::InvalidSize))
    );
    assert_eq!(state, before);

    let synced = Watermarks { last_sync: Some(4), pending_sync: None };
    state.accumulate(VolumeStateTag::Watermarks, &synced.to_bytes()).unwrap();
    assert!(!state.has_pending_commits());
    assert!(!state.needs_recovery());
}
