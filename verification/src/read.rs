//! The store's decisions on what was read from the substrate.

use vstd::prelude::*;

use crate::bitmap::{bitmap_framing, check_bitmap};
use crate::error::StorageErr;
use crate::keys::{CommitKey, PageKey, VolumeStateKey};
use crate::page::{PageContent, PageValue};
use crate::snapshot::{Snapshot, FIRST_LSN};
use crate::storage::Storage;
use crate::volume_id::VolumeId;
use crate::volume_state::{SyncDirection, VolumeState, VolumeStateTag, VolumeStatus};

verus! {

/// Rows read from the substrate, as plain values.
pub open spec fn rows_view(rows: Seq<(Vec<u8>, Vec<u8>)>) -> Seq<(Seq<u8>, Seq<u8>)> {
    Seq::new(rows.len(), |i: int| (rows[i].0@, rows[i].1@))
}

/// What a read at `lsn` gives for the row that the scan found: the page
/// value of the row with the sequence number of its key, or `Empty` at
/// `lsn` where the scan found nothing.
pub open spec fn read_found(lsn: u64, found: Option<(Seq<u8>, Seq<u8>)>) -> Result<
    (u64, PageContent),
    StorageErr,
> {
    match found {
        None => Ok((lsn, PageContent::Empty)),
        Some((key, value)) => match PageKey::parse(key) {
            Err(err) => Err(StorageErr::CorruptKey(err)),
            Ok(key) => match PageContent::parse(value) {
                Err(err) => Err(StorageErr::CorruptPage(err)),
                Ok(content) => Ok((key.lsn, content)),
            },
        },
    }
}

/// The state of `state` after the rows were taken in, in order, or the
/// error of the first row that cannot be.
pub open spec fn accumulated_rows(state: VolumeState, rows: Seq<(Seq<u8>, Seq<u8>)>) -> Result<
    VolumeState,
    StorageErr,
>
    decreases rows.len(),
{
    if rows.len() == 0 {
        Ok(state)
    } else {
        match accumulated_rows(state, rows.drop_last()) {
            Err(err) => Err(err),
            Ok(state) => match VolumeStateKey::parse(rows.last().0) {
                Err(err) => Err(StorageErr::CorruptKey(err)),
                Ok(key) => state.accumulated(key.tag, rows.last().1),
            },
        }
    }
}

/// The states of the volumes whose rows follow each other in `rows`: one
/// state for each run of rows of one volume, in the order of the runs; or
/// the error of the first row that cannot be taken in.
pub open spec fn volume_states(rows: Seq<(Seq<u8>, Seq<u8>)>) -> Result<
    Seq<VolumeState>,
    StorageErr,
>
    decreases rows.len(),
{
    if rows.len() == 0 {
        Ok(Seq::empty())
    } else {
        match volume_states(rows.drop_last()) {
            Err(err) => Err(err),
            Ok(states) => match VolumeStateKey::parse(rows.last().0) {
                Err(err) => Err(StorageErr::CorruptKey(err)),
                Ok(key) => if states.len() > 0 && states.last().vid == key.vid {
                    match states.last().accumulated(key.tag, rows.last().1) {
                        Err(err) => Err(err),
                        Ok(state) => Ok(states.drop_last().push(state)),
                    }
                } else {
                    match VolumeState::spec_new(key.vid).accumulated(key.tag, rows.last().1) {
                        Err(err) => Err(err),
                        Ok(state) => Ok(states.push(state)),
                    }
                },
            },
        }
    }
}

/// Whether a volume in `state` is one that a query asks for: its sync
/// direction matches `sync`, and it is among `vids` where those are given.
pub open spec fn volume_queried(state: VolumeState, sync: SyncDirection, vids: Option<Seq<VolumeId>>) -> bool {
    state.config.sync.spec_matches(sync) && match vids {
        Some(vids) => vids.contains(state.vid),
        None => true,
    }
}

/// An error among the first rows is the error of the whole.
pub proof fn lemma_accumulated_rows_prefix(state: VolumeState, rows: Seq<(Seq<u8>, Seq<u8>)>, len: int)
    requires
        0 <= len <= rows.len(),
        accumulated_rows(state, rows.subrange(0, len)) is Err,
    ensures
        accumulated_rows(state, rows) == accumulated_rows(state, rows.subrange(0, len)),
    decreases rows.len() - len,
{
    if len < rows.len() {
        let longer = rows.subrange(0, len + 1);
        assert(longer.drop_last() =~= rows.subrange(0, len));
        lemma_accumulated_rows_prefix(state, rows, len + 1);
    } else {
        assert(rows.subrange(0, len) =~= rows);
    }
}

/// An error among the first rows is the error of the whole.
pub proof fn lemma_volume_states_prefix(rows: Seq<(Seq<u8>, Seq<u8>)>, len: int)
    requires
        0 <= len <= rows.len(),
        volume_states(rows.subrange(0, len)) is Err,
    ensures
        volume_states(rows) == volume_states(rows.subrange(0, len)),
    decreases rows.len() - len,
{
    if len < rows.len() {
        let longer = rows.subrange(0, len + 1);
        assert(longer.drop_last() =~= rows.subrange(0, len));
        lemma_volume_states_prefix(rows, len + 1);
    } else {
        assert(rows.subrange(0, len) =~= rows);
    }
}

impl Storage {
    /// The status of a volume, from its status row if it has one.
    pub fn get_volume_status(row: Option<&[u8]>) -> (result: Result<VolumeStatus, StorageErr>)
        ensures
            result == match row {
                None => Ok::<VolumeStatus, StorageErr>(VolumeStatus::Okay),
                Some(row) => match VolumeStatus::parse(row@) {
                    Ok(status) => Ok(status),
                    Err(err) => Err(StorageErr::CorruptVolumeState(VolumeStateTag::Status, err)),
                },
            },
    {
        match row {
            None => Ok(VolumeStatus::Okay),
            Some(row) => match VolumeStatus::from_bytes(row) {
                Ok(status) => Ok(status),
                Err(err) => Err(StorageErr::CorruptVolumeState(VolumeStateTag::Status, err)),
            },
        }
    }

    /// The latest snapshot of a volume, from its snapshot row if it has
    /// one.
    pub fn snapshot(row: Option<&[u8]>) -> (result: Result<Option<Snapshot>, StorageErr>)
        ensures
            result == match row {
                None => Ok::<Option<Snapshot>, StorageErr>(None),
                Some(row) => match Snapshot::parse(row@) {
                    Ok(snapshot) => Ok(Some(snapshot)),
                    Err(err) => Err(StorageErr::CorruptSnapshot(err)),
                },
            },
            result matches Ok(Some(snapshot)) ==> snapshot.wf(),
    {
        match row {
            None => Ok(None),
            Some(row) => match Snapshot::from_bytes(row) {
                Ok(snapshot) => {
                    proof {
                        Snapshot::lemma_bytes_parse(row@);
                    }
                    Ok(Some(snapshot))
                },
                Err(err) => Err(StorageErr::CorruptSnapshot(err)),
            },
        }
    }

    /// The state of volume `vid`, from the rows that a scan of the
    /// volume's state keys found.
    pub fn volume_state(vid: &VolumeId, rows: &Vec<(Vec<u8>, Vec<u8>)>) -> (result: Result<
        VolumeState,
        StorageErr,
    >)
        ensures
            result == accumulated_rows(VolumeState::spec_new(*vid), rows_view(rows@)),
            result matches Ok(state) ==> state.wf() && state.vid == *vid,
    {
        let ghost all = rows_view(rows@);
        let ghost start = VolumeState::spec_new(*vid);
        let mut state = VolumeState::new(*vid);
        let mut next: usize = 0;
        while next < rows.len()
            invariant
                next <= rows@.len(),
                all == rows_view(rows@),
                start == VolumeState::spec_new(*vid),
                accumulated_rows(start, all.subrange(0, next as int)) == Ok::<
                    VolumeState,
                    StorageErr,
                >(state),
                state.wf(),
                state.vid == *vid,
            decreases rows@.len() - next,
        {
            proof {
                let grown = all.subrange(0, next + 1);
                assert(grown.drop_last() =~= all.subrange(0, next as int));
                assert(grown.last() == (rows@[next as int].0@, rows@[next as int].1@));
                if accumulated_rows(start, grown) is Err {
                    lemma_accumulated_rows_prefix(start, all, next + 1);
                }
            }
            let key = match VolumeStateKey::from_bytes(rows[next].0.as_slice()) {
                Ok(key) => key,
                Err(err) => {
                    return Err(StorageErr::CorruptKey(err));
                },
            };
            match state.accumulate(key.tag, rows[next].1.as_slice()) {
                Ok(()) => {},
                Err(err) => {
                    return Err(err);
                },
            }
            next += 1;
        }
        assert(all.subrange(0, rows@.len() as int) =~= all);
        Ok(state)
    }

    /// The states of the volumes that a query asks for, from all the rows
    /// of the volume state partition in the order of their keys: those
    /// volumes whose sync direction matches `sync` and, where `vids` is
    /// given, that are among them.
    pub fn query_volumes(
        rows: &Vec<(Vec<u8>, Vec<u8>)>,
        sync: SyncDirection,
        vids: Option<&Vec<VolumeId>>,
    ) -> (result: Result<Vec<VolumeState>, StorageErr>)
        ensures
            match volume_states(rows_view(rows@)) {
                Ok(states) => result matches Ok(found) && found@ == states.filter(
                    |state: VolumeState|
                        volume_queried(
                            state,
                            sync,
                            match vids {
                                Some(vids) => Some(vids@),
                                None => None,
                            },
                        ),
                ),
                Err(err) => result matches Err(e) && e == err,
            },
    {
        let ghost all = rows_view(rows@);
        let mut states: Vec<VolumeState> = Vec::new();
        let mut next: usize = 0;
        while next < rows.len()
            invariant
                next <= rows@.len(),
                all == rows_view(rows@),
                volume_states(all.subrange(0, next as int)) == Ok::<Seq<VolumeState>, StorageErr>(
                    states@,
                ),
            decreases rows@.len() - next,
        {
            proof {
                let grown = all.subrange(0, next + 1);
                assert(grown.drop_last() =~= all.subrange(0, next as int));
                assert(grown.last() == (rows@[next as int].0@, rows@[next as int].1@));
                if volume_states(grown) is Err {
                    lemma_volume_states_prefix(all, next + 1);
                }
            }
            let key = match VolumeStateKey::from_bytes(rows[next].0.as_slice()) {
                Ok(key) => key,
                Err(err) => {
                    return Err(StorageErr::CorruptKey(err));
                },
            };
            let len = states.len();
            if len > 0 && states[len - 1].vid == key.vid {
                let mut state = states[len - 1];
                match state.accumulate(key.tag, rows[next].1.as_slice()) {
                    Ok(()) => {},
                    Err(err) => {
                        return Err(err);
                    },
                }
                let ghost before = states@;
                states.set(len - 1, state);
                assert(states@ =~= before.drop_last().push(state));
            } else {
                let mut state = VolumeState::new(key.vid);
                match state.accumulate(key.tag, rows[next].1.as_slice()) {
                    Ok(()) => {},
                    Err(err) => {
                        return Err(err);
                    },
                }
                states.push(state);
            }
            next += 1;
        }
        assert(all.subrange(0, rows@.len() as int) =~= all);
        let ghost asked = |state: VolumeState|
            volume_queried(
                state,
                sync,
                match vids {
                    Some(vids) => Some(vids@),
                    None => None,
                },
            );
        let mut found: Vec<VolumeState> = Vec::new();
        let mut index: usize = 0;
        proof {
            reveal(Seq::filter);
            assert(states@.subrange(0, 0) =~= Seq::<VolumeState>::empty());
        }
        while index < states.len()
            invariant
                index <= states@.len(),
                found@ == states@.subrange(0, index as int).filter(asked),
                asked == |state: VolumeState|
                    volume_queried(
                        state,
                        sync,
                        match vids {
                            Some(vids) => Some(vids@),
                            None => None,
                        },
                    ),
            decreases states@.len() - index,
        {
            let state = states[index];
            let among = match vids {
                Some(vids) => Storage::contains_volume(vids, &state.vid),
                None => true,
            };
            proof {
                reveal(Seq::filter);
                let grown = states@.subrange(0, index + 1);
                assert(grown.drop_last() =~= states@.subrange(0, index as int));
                assert(grown.last() == state);
            }
            if among && state.config.sync.matches(sync) {
                found.push(state);
            }
            index += 1;
        }
        assert(states@.subrange(0, states@.len() as int) =~= states@);
        Ok(found)
    }

    /// Whether `vid` is among `vids`.
    pub fn contains_volume(vids: &Vec<VolumeId>, vid: &VolumeId) -> (found: bool)
        ensures
            found == vids@.contains(*vid),
    {
        let mut next: usize = 0;
        while next < vids.len()
            invariant
                next <= vids@.len(),
                forall|i: int| 0 <= i < next ==> vids@[i] != *vid,
            decreases vids@.len() - next,
        {
            if vids[next] == *vid {
                return true;
            }
            next += 1;
        }
        false
    }

    /// The first and the last key of the range to scan for a read of
    /// `offset` at `lsn`: the keys of that offset from the first sequence
    /// number to `lsn`. The read takes the last row of that range.
    pub fn read_range(vid: &VolumeId, lsn: u64, offset: u32) -> (range: (Vec<u8>, Vec<u8>))
        requires
            lsn >= FIRST_LSN,
        ensures
            range.0@ == (PageKey { vid: *vid, offset, lsn: FIRST_LSN }).bytes(),
            range.1@ == (PageKey { vid: *vid, offset, lsn }).bytes(),
    {
        let first = PageKey::new(*vid, offset, FIRST_LSN);
        let last = PageKey::new(*vid, offset, lsn);
        (first.to_bytes(), last.to_bytes())
    }

    /// The most recent page value of an offset at or below `lsn`, with the
    /// sequence number at which it was written: `found` is the last row
    /// of the range that `read_range` gives, if the range has a row.
    pub fn read(lsn: u64, found: Option<(&[u8], &[u8])>) -> (result: Result<
        (u64, PageValue),
        StorageErr,
    >)
        ensures
            match read_found(
                lsn,
                match found {
                    Some((key, value)) => Some((key@, value@)),
                    None => None,
                },
            ) {
                Ok((at, content)) => result matches Ok((found_lsn, value)) && found_lsn == at
                    && value@ == content,
                Err(err) => result matches Err(e) && e == err,
            },
    {
        match found {
            None => Ok((lsn, PageValue::Empty)),
            Some((key, value)) => {
                let key = match PageKey::from_bytes(key) {
                    Ok(key) => key,
                    Err(err) => {
                        return Err(StorageErr::CorruptKey(err));
                    },
                };
                match PageValue::from_bytes(value) {
                    Ok(value) => Ok((key.lsn, value)),
                    Err(err) => Err(StorageErr::CorruptPage(err)),
                }
            },
        }
    }

    /// The keys to look up for a query of pages at exactly `lsn`: one for
    /// each offset, in their order. A page written at an earlier sequence
    /// number is not found under these keys.
    pub fn query_pages(vid: &VolumeId, lsn: u64, offsets: &Vec<u32>) -> (keys: Vec<PageKey>)
        requires
            lsn >= FIRST_LSN,
        ensures
            keys@ == Seq::new(offsets@.len(), |i: int| PageKey { vid: *vid, offset: offsets@[i], lsn }),
    {
        let mut keys: Vec<PageKey> = Vec::new();
        let mut next: usize = 0;
        while next < offsets.len()
            invariant
                next <= offsets@.len(),
                lsn >= FIRST_LSN,
                keys@ == Seq::new(
                    next as nat,
                    |i: int| PageKey { vid: *vid, offset: offsets@[i], lsn },
                ),
            decreases offsets@.len() - next,
        {
            keys.push(PageKey::new(*vid, offsets[next], lsn));
            assert(keys@ =~= Seq::new(
                (next + 1) as nat,
                |i: int| PageKey { vid: *vid, offset: offsets@[i], lsn },
            ));
            next += 1;
        }
        keys
    }

    /// The answer of a query of pages for one offset: the page value of
    /// the row that was found under its key, or none.
    pub fn queried_page(offset: u32, row: Option<&[u8]>) -> (result: Result<
        (u32, Option<PageValue>),
        StorageErr,
    >)
        ensures
            match row {
                None => result matches Ok((o, None)) && o == offset,
                Some(row) => match PageContent::parse(row@) {
                    Ok(content) => result matches Ok((o, Some(value))) && o == offset && value@
                        == content,
                    Err(err) => result matches Err(e) && e == StorageErr::CorruptPage(err),
                },
            },
    {
        match row {
            None => Ok((offset, None)),
            Some(row) => match PageValue::from_bytes(row) {
                Ok(value) => Ok((offset, Some(value))),
                Err(err) => Err(StorageErr::CorruptPage(err)),
            },
        }
    }

    /// The first and the last key of the range to scan for the commits of
    /// a push: the commit keys of the volume from `first` to `last`.
    pub fn sync_commit_range(vid: &VolumeId, first: u64, last: u64) -> (range: (Vec<u8>, Vec<u8>))
        requires
            FIRST_LSN <= first,
            FIRST_LSN <= last,
        ensures
            range.0@ == (CommitKey { vid: *vid, lsn: first }).bytes(),
            range.1@ == (CommitKey { vid: *vid, lsn: last }).bytes(),
    {
        (CommitKey::new(*vid, first).to_bytes(), CommitKey::new(*vid, last).to_bytes())
    }

    /// Whether the commit row with key `key` is the one that a push
    /// expects next, at the sequence number `cursor`. A key that is no
    /// commit key is left to `sync_commit` to report.
    pub fn commit_follows(cursor: u64, key: &[u8]) -> (follows: bool)
        ensures
            follows == (CommitKey::parse(key@) matches Ok(parsed) ==> parsed.lsn == cursor),
    {
        match CommitKey::from_bytes(key) {
            Ok(parsed) => parsed.lsn == cursor,
            Err(_) => true,
        }
    }

    /// Takes the next commit row of a push: returns its sequence number,
    /// after its key and the framing of its bitmap were checked. The
    /// commits of a push follow each other without a gap: a row at another
    /// sequence number than `cursor` is not to be handed in.
    pub fn sync_commit(cursor: u64, key: &[u8], value: &[u8]) -> (result: Result<u64, StorageErr>)
        requires
            CommitKey::parse(key@) matches Ok(parsed) ==> parsed.lsn == cursor,
        ensures
            result == match CommitKey::parse(key@) {
                Err(err) => Err::<u64, StorageErr>(StorageErr::CorruptKey(err)),
                Ok(parsed) => match bitmap_framing(value@) {
                    Err(err) => Err(StorageErr::CorruptCommit(err)),
                    Ok(()) => Ok(cursor),
                },
            },
    {
        let parsed = match CommitKey::from_bytes(key) {
            Ok(parsed) => parsed,
            Err(err) => {
                return Err(StorageErr::CorruptKey(err));
            },
        };
        match check_bitmap(value) {
            Ok(()) => Ok(parsed.lsn),
            Err(err) => Err(StorageErr::CorruptCommit(err)),
        }
    }
}

} // verus!
