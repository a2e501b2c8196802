//! The decisions of the volume store.
//!
//! The store keeps three partitions in an ordered key-value substrate:
//! volume state, pages and commits. Nothing here touches the substrate.
//! Each decision takes what its caller has read from the substrate, and
//! returns what it found or the batch of changes to apply. A caller that
//! reads and then writes holds the store's commit lock from the read to the
//! end of the write.

use vstd::prelude::*;

use crate::batch::{Batch, Change, Notice, Write};
use crate::error::StorageErr;
use crate::memtable::{rows_offsets, Memtable};
use crate::page::{PageContent, PageValue};
use crate::snapshot::{lsn_or_zero, Snapshot, FIRST_LSN};
use crate::volume_id::VolumeId;
use crate::volume_state::{
    local_lsn, VolumeConfig, VolumeState, VolumeStateTag, VolumeStatus, Watermarks,
};

verus! {

/// What the remote says of a volume: its remote sequence number and its
/// page count.
#[derive(Clone, Copy, Debug, PartialEq, Eq, Structural)]
pub struct RemoteSnapshot {
    pub lsn: u64,
    pub pages: u32,
}

/// The sequence number that follows an optional one: the first, where
/// there is none.
pub open spec fn next_lsn(lsn: Option<u64>) -> u64 {
    (lsn_or_zero(lsn) + 1) as u64
}

/// A page write for each row, at `lsn`, in the order of the rows.
pub open spec fn page_puts(rows: Seq<(u32, Seq<u8>)>, lsn: u64) -> Seq<Change> {
    Seq::new(
        rows.len(),
        |i: int| Change::PutPage { offset: rows[i].0, lsn, content: PageContent::Available(rows[i].1) },
    )
}

/// A pending marker for each offset, at `lsn`, in the order of the offsets.
pub open spec fn pending_puts(offsets: Seq<u32>, lsn: u64) -> Seq<Change> {
    Seq::new(
        offsets.len(),
        |i: int| Change::PutPage { offset: offsets[i], lsn, content: PageContent::Pending },
    )
}

/// The removal of the page at each offset, at `lsn`.
pub open spec fn page_removals(offsets: Seq<u32>, lsn: u64) -> Seq<Change> {
    Seq::new(offsets.len(), |i: int| Change::RemovePage { offset: offsets[i], lsn })
}

/// The removal of the commit at each sequence number from `first` to
/// `last`, both included.
pub open spec fn commit_removals(first: u64, last: u64) -> Seq<Change> {
    Seq::new(
        if first <= last {
            (last - first + 1) as nat
        } else {
            0
        },
        |i: int| Change::RemoveCommit { lsn: (first + i) as u64 },
    )
}

/// The removal of each commit, followed by that of the pages it wrote.
pub open spec fn commit_rollbacks(commits: Seq<(u64, Seq<u32>)>) -> Seq<Change>
    decreases commits.len(),
{
    if commits.len() == 0 {
        Seq::empty()
    } else {
        commit_rollbacks(commits.drop_last()) + seq![
            Change::RemoveCommit { lsn: commits.last().0 },
        ] + page_removals(commits.last().1, commits.last().0)
    }
}

/// The page count after the rows were written: it grows to reach past the
/// largest offset written, and never shrinks.
pub open spec fn committed_pages(pages: u32, rows: Seq<(u32, Seq<u8>)>) -> u32 {
    if rows.len() > 0 && rows.last().0 + 1 > pages {
        (rows.last().0 + 1) as u32
    } else {
        pages
    }
}

/// The snapshot that a commit of `rows` on top of `read` makes.
pub open spec fn commit_snapshot(read: Option<Snapshot>, rows: Seq<(u32, Seq<u8>)>) -> Snapshot {
    Snapshot {
        local: next_lsn(local_lsn(read)),
        remote: match read {
            Some(read) => read.remote,
            None => None,
        },
        pages: committed_pages(
            match read {
                Some(read) => read.pages,
                None => 0,
            },
            rows,
        ),
    }
}

/// The changes of a commit of `rows` on top of `read`: the pages, the new
/// snapshot, and the commit record with the offsets written.
pub open spec fn commit_changes(read: Option<Snapshot>, rows: Seq<(u32, Seq<u8>)>) -> Seq<Change> {
    page_puts(rows, next_lsn(local_lsn(read))) + seq![
        Change::PutSnapshot(commit_snapshot(read, rows)),
        Change::PutCommit { lsn: next_lsn(local_lsn(read)), offsets: rows_offsets(rows).to_set() },
    ]
}

/// The changes that replicate a remote commit into a volume in `state`:
/// the snapshot moves to the next local sequence number and takes the
/// remote's number and page count, both watermarks move there too, and
/// every changed offset gets a pending marker.
pub open spec fn remote_apply_changes(
    state: VolumeState,
    remote: RemoteSnapshot,
    changed: Seq<u32>,
) -> Seq<Change> {
    let lsn = next_lsn(local_lsn(state.snapshot));
    seq![
        Change::PutSnapshot(Snapshot { local: lsn, remote: Some(remote.lsn), pages: remote.pages }),
        Change::PutWatermarks(Watermarks { last_sync: Some(lsn), pending_sync: Some(lsn) }),
    ] + pending_puts(changed, lsn)
}

/// What a remote commit does to a volume in `state`: the changes to make,
/// and the error if the commit is refused.
pub open spec fn remote_apply(state: VolumeState, remote: RemoteSnapshot, changed: Seq<u32>) -> (
    Seq<Change>,
    Option<StorageErr>,
) {
    if state.spec_needs_recovery() {
        (Seq::empty(), Some(StorageErr::VolumeNeedsRecovery))
    } else if state.spec_has_pending_commits() {
        (seq![Change::PutStatus(VolumeStatus::Conflict)], Some(StorageErr::RemoteConflict))
    } else {
        (remote_apply_changes(state, remote, changed), None)
    }
}

/// The range of sequence numbers that a push from `state` covers: from
/// just past `last_sync` to the local sequence number.
pub open spec fn sync_range(state: VolumeState) -> (u64, u64) {
    (next_lsn(state.watermarks.last_sync), lsn_or_zero(local_lsn(state.snapshot)) as u64)
}

/// The changes that complete a push: the snapshot takes the remote's
/// sequence number, `pending_sync` becomes `last_sync`, and the commits
/// from `first` to `last` go.
pub open spec fn complete_sync_changes(
    state: VolumeState,
    remote: RemoteSnapshot,
    first: u64,
    last: u64,
) -> Seq<Change> {
    seq![
        Change::PutSnapshot(
            Snapshot {
                local: state.snapshot->Some_0.local,
                remote: Some(remote.lsn),
                pages: state.snapshot->Some_0.pages,
            },
        ),
        Change::PutWatermarks(
            Watermarks { last_sync: state.watermarks.pending_sync, pending_sync: None },
        ),
    ] + commit_removals(first, last)
}

/// The changes that give up a push: `pending_sync` goes back to
/// `last_sync`, and the status records a rejection by the remote.
pub open spec fn rollback_sync_changes(watermarks: Watermarks, rejected: bool) -> Seq<Change> {
    let rollback = seq![
        Change::PutWatermarks(
            Watermarks { last_sync: watermarks.last_sync, pending_sync: watermarks.last_sync },
        ),
    ];
    if rejected {
        rollback.push(Change::PutStatus(VolumeStatus::RejectedCommit))
    } else {
        rollback
    }
}

/// The state of a volume after it was taken back to its last synced
/// sequence number.
pub open spec fn reset_state(state: VolumeState, remote: RemoteSnapshot) -> VolumeState {
    VolumeState {
        vid: state.vid,
        config: state.config,
        snapshot: match state.watermarks.last_sync {
            Some(target) => Some(
                Snapshot { local: target, remote: Some(remote.lsn), pages: remote.pages },
            ),
            None => None,
        },
        watermarks: Watermarks {
            last_sync: state.watermarks.last_sync,
            pending_sync: state.watermarks.last_sync,
        },
        status: VolumeStatus::Okay,
    }
}

/// The changes that take a volume back to its last synced sequence
/// number: the snapshot goes back there, or goes altogether where nothing
/// was ever synced; the status is cleared; `pending_sync` goes back to
/// `last_sync`; the local commits and the pages they wrote go.
pub open spec fn reset_changes(
    state: VolumeState,
    commits: Seq<(u64, Seq<u32>)>,
    remote: RemoteSnapshot,
) -> Seq<Change> {
    seq![
        match state.watermarks.last_sync {
            Some(target) => Change::PutSnapshot(
                Snapshot { local: target, remote: Some(remote.lsn), pages: remote.pages },
            ),
            None => Change::RemoveSnapshot,
        },
        Change::RemoveStatus,
        Change::PutWatermarks(
            Watermarks {
                last_sync: state.watermarks.last_sync,
                pending_sync: state.watermarks.last_sync,
            },
        ),
    ] + commit_rollbacks(commits)
}

/// What a reset to the remote does to a volume in `state`: where the
/// volume has nothing past its last sync, it takes the remote commit as
/// it is; otherwise it goes back to its last sync first.
pub open spec fn reset_to_remote(
    state: VolumeState,
    commits: Seq<(u64, Seq<u32>)>,
    remote: RemoteSnapshot,
    changed: Seq<u32>,
) -> (Seq<Change>, Option<StorageErr>) {
    if state.watermarks.last_sync == local_lsn(state.snapshot) {
        remote_apply(state, remote, changed)
    } else {
        (
            reset_changes(state, commits, remote) + remote_apply_changes(
                reset_state(state, remote),
                remote,
                changed,
            ),
            None,
        )
    }
}

/// The views of the commits handed to a reset.
pub open spec fn commits_view(commits: Seq<(u64, Vec<u32>)>) -> Seq<(u64, Seq<u32>)> {
    Seq::new(commits.len(), |i: int| (commits[i].0, commits[i].1@))
}

/// The fetched pages handed to the store, as plain values.
pub open spec fn fetched_view(pages: Seq<(u32, Vec<u8>)>) -> Seq<(u32, Seq<u8>)> {
    Seq::new(pages.len(), |i: int| (pages[i].0, pages[i].1@))
}

/// The changes that store fetched pages at `lsn`, or the error of the
/// first entry that is no page value.
pub open spec fn received_changes(pages: Seq<(u32, Seq<u8>)>, lsn: u64) -> Result<
    Seq<Change>,
    StorageErr,
>
    decreases pages.len(),
{
    if pages.len() == 0 {
        Ok(Seq::empty())
    } else {
        match received_changes(pages.drop_last(), lsn) {
            Ok(changes) => match PageContent::parse(pages.last().1) {
                Ok(content) => Ok(
                    changes.push(Change::PutPage { offset: pages.last().0, lsn, content }),
                ),
                Err(err) => Err(StorageErr::CorruptPage(err)),
            },
            Err(err) => Err(err),
        }
    }
}

/// An error among the first entries is the error of the whole.
pub proof fn lemma_received_changes_prefix(pages: Seq<(u32, Seq<u8>)>, lsn: u64, len: int)
    requires
        0 <= len <= pages.len(),
        received_changes(pages.subrange(0, len), lsn) is Err,
    ensures
        received_changes(pages, lsn) == received_changes(pages.subrange(0, len), lsn),
    decreases pages.len() - len,
{
    if len < pages.len() {
        let longer = pages.subrange(0, len + 1);
        assert(longer.drop_last() =~= pages.subrange(0, len));
        lemma_received_changes_prefix(pages, lsn, len + 1);
    } else {
        assert(pages.subrange(0, len) =~= pages);
    }
}

/// The decisions of the volume store. It holds no handle to the
/// substrate: its functions take what was read and return what to write.
pub struct Storage {}

impl Storage {
    /// Sets the configuration of a volume, in place of any earlier one.
    pub fn set_volume_config(vid: &VolumeId, config: VolumeConfig) -> (batch: Batch)
        ensures
            batch@ == seq![Change::PutConfig(config)],
            batch.volume() == *vid,
            batch.published() is None,
    {
        let mut batch = Batch::new(*vid);
        batch.push(Write::PutConfig(config));
        assert(batch@ =~= seq![Change::PutConfig(config)]);
        batch
    }

    /// Commits the pages of `memtable` on top of `snapshot`, the snapshot
    /// that the writer has read. `latest` is the volume's snapshot row as
    /// it is now, read under the commit lock. The commit is refused when
    /// `latest` is no longer at the sequence number of `snapshot`. Once
    /// the batch was applied, subscribers hear of a local change.
    pub fn commit(
        vid: &VolumeId,
        snapshot: Option<Snapshot>,
        memtable: &Memtable,
        latest: Option<Snapshot>,
    ) -> (result: Result<(Snapshot, Batch), StorageErr>)
        requires
            memtable.wf(),
            snapshot matches Some(read) ==> read.wf() && read.local < u64::MAX,
            memtable.rows().len() > 0 ==> memtable.rows().last().0 < u32::MAX,
        ensures
            match result {
                Ok((committed, batch)) => {
                    &&& local_lsn(latest) == local_lsn(snapshot)
                    &&& committed == commit_snapshot(snapshot, memtable.rows())
                    &&& committed.wf()
                    &&& batch@ == commit_changes(snapshot, memtable.rows())
                    &&& batch.volume() == *vid
                    &&& batch.published() == Some(Notice::LocalChanged)
                },
                Err(err) => err == StorageErr::ConcurrentWrite && local_lsn(latest) != local_lsn(
                    snapshot,
                ),
            },
    {
        let read_lsn: Option<u64> = match snapshot {
            Some(read) => Some(read.local),
            None => None,
        };
        let latest_lsn: Option<u64> = match latest {
            Some(latest) => Some(latest.local),
            None => None,
        };
        let (commit_lsn, remote_lsn, mut pages): (u64, Option<u64>, u32) = match snapshot {
            Some(read) => (read.local + 1, read.remote, read.pages),
            None => (FIRST_LSN, None, 0),
        };
        let ghost rows = memtable.rows();
        let mut batch = Batch::new(*vid);
        let mut offsets: Vec<u32> = Vec::new();
        let len = memtable.len();
        let mut next: usize = 0;
        while next < len
            invariant
                next <= len == rows.len(),
                rows == memtable.rows(),
                batch@ == page_puts(rows.subrange(0, next as int), commit_lsn),
                offsets@ == rows_offsets(rows.subrange(0, next as int)),
                batch.volume() == *vid,
            decreases len - next,
        {
            let offset = memtable.offset_at(next);
            let page = memtable.page_at(next).clone();
            offsets.push(offset);
            batch.push(Write::PutPage { offset, lsn: commit_lsn, value: PageValue::Available(page) });
            proof {
                let grown = rows.subrange(0, next + 1);
                let prefix = rows.subrange(0, next as int);
                assert(grown =~= prefix.push(rows[next as int]));
                assert(page_puts(grown, commit_lsn) =~= page_puts(prefix, commit_lsn).push(
                    Change::PutPage {
                        offset,
                        lsn: commit_lsn,
                        content: PageContent::Available(rows[next as int].1),
                    },
                ));
                assert(rows_offsets(grown) =~= rows_offsets(prefix).push(offset));
            }
            next += 1;
        }
        assert(rows.subrange(0, len as int) =~= rows);
        match memtable.last_offset() {
            Some(offset) => {
                if offset + 1 > pages {
                    pages = offset + 1;
                }
            },
            None => {},
        }
        let committed = Snapshot { local: commit_lsn, remote: remote_lsn, pages };
        batch.push(Write::PutSnapshot(committed));
        batch.push(Write::PutCommit { lsn: commit_lsn, offsets });
        batch.publish(Notice::LocalChanged);
        assert(batch@ =~= commit_changes(snapshot, rows));
        if latest_lsn != read_lsn {
            return Err(StorageErr::ConcurrentWrite);
        }
        Ok((committed, batch))
    }

    /// Replicates a remote commit into a volume: `state` is the volume's
    /// state as read under the commit lock, `changed` the offsets that the
    /// remote commit changed. The batch is to be applied whatever the
    /// outcome: a refusal for unsent local commits is recorded in the
    /// volume's status. Once the batch of an accepted commit was applied,
    /// subscribers hear of a remote change.
    pub fn receive_remote_commit(
        state: &VolumeState,
        remote_snapshot: RemoteSnapshot,
        changed: &Vec<u32>,
    ) -> (result: (Batch, Result<(), StorageErr>))
        requires
            state.wf(),
            remote_snapshot.lsn >= FIRST_LSN,
            state.snapshot matches Some(snapshot) ==> snapshot.local < u64::MAX,
        ensures
            result.0@ == remote_apply(*state, remote_snapshot, changed@).0,
            result.0.volume() == state.vid,
            match remote_apply(*state, remote_snapshot, changed@).1 {
                Some(err) => result.1 == Err::<(), StorageErr>(err) && result.0.published() is None,
                None => result.1 is Ok && result.0.published() == Some(Notice::RemoteChanged),
            },
    {
        let mut batch = Batch::new(state.vid);
        if state.needs_recovery() {
            return (batch, Err(StorageErr::VolumeNeedsRecovery));
        }
        if state.has_pending_commits() {
            batch.push(Write::PutStatus(VolumeStatus::Conflict));
            assert(batch@ =~= seq![Change::PutStatus(VolumeStatus::Conflict)]);
            return (batch, Err(StorageErr::RemoteConflict));
        }
        Storage::push_remote_apply(&mut batch, state, remote_snapshot, changed);
        batch.publish(Notice::RemoteChanged);
        assert(Seq::<Change>::empty() + remote_apply_changes(*state, remote_snapshot, changed@)
            =~= remote_apply_changes(*state, remote_snapshot, changed@));
        (batch, Ok(()))
    }

    /// Adds the changes of an accepted remote commit to `batch`.
    fn push_remote_apply(
        batch: &mut Batch,
        state: &VolumeState,
        remote_snapshot: RemoteSnapshot,
        changed: &Vec<u32>,
    )
        requires
            state.snapshot matches Some(snapshot) ==> snapshot.local < u64::MAX,
        ensures
            final(batch)@ == old(batch)@ + remote_apply_changes(*state, remote_snapshot, changed@),
            final(batch).volume() == old(batch).volume(),
            final(batch).published() == old(batch).published(),
    {
        let local_lsn: u64 = match state.snapshot {
            Some(snapshot) => snapshot.local + 1,
            None => FIRST_LSN,
        };
        let ghost start = batch@;
        batch.push(
            Write::PutSnapshot(
                Snapshot {
                    local: local_lsn,
                    remote: Some(remote_snapshot.lsn),
                    pages: remote_snapshot.pages,
                },
            ),
        );
        batch.push(
            Write::PutWatermarks(
                state.watermarks.with_last_sync(local_lsn).with_pending_sync(local_lsn),
            ),
        );
        let ghost head = batch@;
        let mut next: usize = 0;
        while next < changed.len()
            invariant
                next <= changed@.len(),
                batch@ == head + pending_puts(changed@.subrange(0, next as int), local_lsn),
                batch.volume() == old(batch).volume(),
                batch.published() == old(batch).published(),
            decreases changed@.len() - next,
        {
            let offset = changed[next];
            batch.push(Write::PutPage { offset, lsn: local_lsn, value: PageValue::Pending });
            proof {
                let grown = changed@.subrange(0, next + 1);
                let prefix = changed@.subrange(0, next as int);
                assert(grown =~= prefix.push(offset));
                assert(pending_puts(grown, local_lsn) =~= pending_puts(prefix, local_lsn).push(
                    Change::PutPage { offset, lsn: local_lsn, content: PageContent::Pending },
                ));
                assert(head + pending_puts(grown, local_lsn) =~= (head + pending_puts(
                    prefix,
                    local_lsn,
                )).push(Change::PutPage { offset, lsn: local_lsn, content: PageContent::Pending }));
            }
            next += 1;
        }
        proof {
            assert(changed@.subrange(0, changed@.len() as int) =~= changed@);
            assert(batch@ =~= start + remote_apply_changes(*state, remote_snapshot, changed@));
        }
    }

    /// Writes fetched pages into a volume at `lsn`. Each entry is an
    /// offset and the stored form of a page value. The first entry that is
    /// no page value fails the whole batch.
    pub fn receive_pages(vid: &VolumeId, lsn: u64, pages: &Vec<(u32, Vec<u8>)>) -> (result: Result<
        Batch,
        StorageErr,
    >)
        requires
            lsn >= FIRST_LSN,
        ensures
            match received_changes(fetched_view(pages@), lsn) {
                Ok(changes) => result matches Ok(batch) && batch@ == changes && batch.volume()
                    == *vid && batch.published() is None,
                Err(err) => result matches Err(e) && e == err,
            },
    {
        let ghost fetched = fetched_view(pages@);
        let mut batch = Batch::new(*vid);
        let mut next: usize = 0;
        while next < pages.len()
            invariant
                next <= pages@.len(),
                fetched == fetched_view(pages@),
                batch.volume() == *vid,
                batch.published() is None,
                received_changes(fetched.subrange(0, next as int), lsn) == Ok::<
                    Seq<Change>,
                    StorageErr,
                >(batch@),
            decreases pages@.len() - next,
        {
            let offset = pages[next].0;
            proof {
                let grown = fetched.subrange(0, next + 1);
                assert(grown.drop_last() =~= fetched.subrange(0, next as int));
                assert(grown.last() == (offset, pages@[next as int].1@));
                if received_changes(grown, lsn) is Err {
                    lemma_received_changes_prefix(fetched, lsn, next + 1);
                }
            }
            match PageValue::from_bytes(pages[next].1.as_slice()) {
                Ok(value) => {
                    batch.push(Write::PutPage { offset, lsn, value });
                },
                Err(err) => {
                    return Err(StorageErr::CorruptPage(err));
                },
            }
            next += 1;
        }
        assert(fetched.subrange(0, pages@.len() as int) =~= fetched);
        Ok(batch)
    }

    /// Prepares a push of a volume in `state`: returns the snapshot to
    /// push, the first and the last sequence number to push, and the batch
    /// that records the push as pending.
    pub fn prepare_sync_to_remote(state: &VolumeState) -> (result: Result<
        (Snapshot, (u64, u64), Batch),
        StorageErr,
    >)
        requires
            state.wf(),
            state.spec_needs_recovery() || state.spec_has_pending_commits(),
        ensures
            match result {
                Ok((snapshot, range, batch)) => {
                    &&& !state.spec_needs_recovery()
                    &&& Some(snapshot) == state.snapshot
                    &&& range == sync_range(*state)
                    &&& FIRST_LSN <= range.0 <= range.1
                    &&& batch@ == seq![
                        Change::PutWatermarks(
                            Watermarks {
                                last_sync: state.watermarks.last_sync,
                                pending_sync: Some(snapshot.local),
                            },
                        ),
                    ]
                    &&& batch.volume() == state.vid
                    &&& batch.published() is None
                },
                Err(err) => err == StorageErr::VolumeNeedsRecovery && state.spec_needs_recovery(),
            },
    {
        if state.needs_recovery() {
            return Err(StorageErr::VolumeNeedsRecovery);
        }
        let pending = state.has_pending_commits();
        match state.snapshot {
            Some(snapshot) => {
                let local_lsn = snapshot.local;
                let mut batch = Batch::new(state.vid);
                batch.push(Write::PutWatermarks(state.watermarks.with_pending_sync(local_lsn)));
                let start: u64 = match state.watermarks.last_sync {
                    Some(last) => last + 1,
                    None => FIRST_LSN,
                };
                assert(batch@ =~= seq![
                    Change::PutWatermarks(
                        Watermarks {
                            last_sync: state.watermarks.last_sync,
                            pending_sync: Some(snapshot.local),
                        },
                    ),
                ]);
                Ok((snapshot, (start, local_lsn), batch))
            },
            None => {
                assert(false);
                Err(StorageErr::VolumeNeedsRecovery)
            },
        }
    }

    /// Gives up a push: `watermarks` is the volume's watermarks row if it
    /// has one, `rejected` whether the remote rejected the commit.
    pub fn rollback_sync_to_remote(vid: &VolumeId, watermarks: Option<&[u8]>, rejected: bool) -> (result:
        Result<Batch, StorageErr>)
        ensures
            match result {
                Ok(batch) => {
                    &&& batch.volume() == *vid
                    &&& batch.published() is None
                    &&& match watermarks {
                        Some(row) => Watermarks::parse(row@) is Ok && batch@
                            == rollback_sync_changes(Watermarks::parse(row@)->Ok_0, rejected),
                        None => batch@ == rollback_sync_changes(
                            Watermarks::spec_default(),
                            rejected,
                        ),
                    }
                },
                Err(err) => watermarks matches Some(row) && Watermarks::parse(row@) matches Err(
                    layout,
                ) && err == StorageErr::CorruptVolumeState(VolumeStateTag::Watermarks, layout),
            },
    {
        let current = match watermarks {
            Some(row) => match Watermarks::from_bytes(row) {
                Ok(current) => current,
                Err(err) => {
                    return Err(
                        StorageErr::CorruptVolumeState(VolumeStateTag::Watermarks, err),
                    );
                },
            },
            None => Watermarks::default(),
        };
        let mut batch = Batch::new(*vid);
        batch.push(Write::PutWatermarks(current.rollback_pending_sync()));
        if rejected {
            batch.push(Write::PutStatus(VolumeStatus::RejectedCommit));
        }
        assert(batch@ =~= rollback_sync_changes(current, rejected));
        Ok(batch)
    }

    /// Completes a push of the volume in `state`: `sync_start_snapshot` is
    /// the snapshot that the push started from, `remote_snapshot` what the
    /// remote answered, `synced` the first and the last sequence number
    /// that were pushed.
    pub fn complete_sync_to_remote(
        state: &VolumeState,
        sync_start_snapshot: Snapshot,
        remote_snapshot: RemoteSnapshot,
        synced: (u64, u64),
    ) -> (batch: Batch)
        requires
            state.snapshot is Some,
            remote_snapshot.lsn >= FIRST_LSN,
            lsn_or_zero(state.snapshot->Some_0.remote) < remote_snapshot.lsn,
            state.watermarks.pending_sync == Some(sync_start_snapshot.local),
        ensures
            batch@ == complete_sync_changes(*state, remote_snapshot, synced.0, synced.1),
            batch.volume() == state.vid,
            batch.published() is None,
    {
        let mut batch = Batch::new(state.vid);
        match state.snapshot {
            Some(snapshot) => {
                batch.push(
                    Write::PutSnapshot(
                        Snapshot {
                            local: snapshot.local,
                            remote: Some(remote_snapshot.lsn),
                            pages: snapshot.pages,
                        },
                    ),
                );
            },
            None => {},
        }
        batch.push(Write::PutWatermarks(state.watermarks.commit_pending_sync()));
        let ghost head = batch@;
        let (first, last) = synced;
        if first <= last {
            let mut lsn = first;
            loop
                invariant_except_break
                    first <= lsn <= last,
                    batch@ == head + Seq::new(
                        (lsn - first) as nat,
                        |i: int| Change::RemoveCommit { lsn: (first + i) as u64 },
                    ),
                invariant
                    batch.volume() == state.vid,
                    batch.published() is None,
                ensures
                    batch@ == head + commit_removals(first, last),
                decreases last - lsn,
            {
                batch.push(Write::RemoveCommit { lsn });
                proof {
                    let done = Seq::new(
                        (lsn - first) as nat,
                        |i: int| Change::RemoveCommit { lsn: (first + i) as u64 },
                    );
                    let grown = Seq::new(
                        (lsn - first + 1) as nat,
                        |i: int| Change::RemoveCommit { lsn: (first + i) as u64 },
                    );
                    assert(grown =~= done.push(Change::RemoveCommit { lsn }));
                    assert(head + grown =~= (head + done).push(Change::RemoveCommit { lsn }));
                }
                if lsn == last {
                    break ;
                }
                lsn += 1;
            }
        } else {
            assert(head + commit_removals(first, last) =~= head);
        }
        batch
    }

    /// Resets the volume in `state` to the remote: `commits` are all the
    /// commit rows of the volume, each with its sequence number and the
    /// offsets of its bitmap; `remote_snapshot` and `changed` describe the
    /// remote commit to take in afterwards. The batch is to be applied
    /// whatever the outcome. Once the batch of a reset that went through
    /// was applied, subscribers hear of a remote change.
    pub fn reset_volume_to_remote(
        state: &VolumeState,
        commits: &Vec<(u64, Vec<u32>)>,
        remote_snapshot: RemoteSnapshot,
        changed: &Vec<u32>,
    ) -> (result: (Batch, Result<(), StorageErr>))
        requires
            state.wf(),
            remote_snapshot.lsn >= FIRST_LSN,
            state.snapshot matches Some(snapshot) ==> snapshot.local < u64::MAX,
            lsn_or_zero(state.watermarks.last_sync) <= lsn_or_zero(local_lsn(state.snapshot)),
            forall|i: int|
                0 <= i < commits@.len() ==> (#[trigger] commits@[i]).0 > lsn_or_zero(
                    state.watermarks.last_sync,
                ),
        ensures
            result.0@ == reset_to_remote(
                *state,
                commits_view(commits@),
                remote_snapshot,
                changed@,
            ).0,
            result.0.volume() == state.vid,
            match reset_to_remote(*state, commits_view(commits@), remote_snapshot, changed@).1 {
                Some(err) => result.1 == Err::<(), StorageErr>(err) && result.0.published() is None,
                None => result.1 is Ok && result.0.published() == Some(Notice::RemoteChanged),
            },
    {
        let local_lsn: Option<u64> = match state.snapshot {
            Some(snapshot) => Some(snapshot.local),
            None => None,
        };
        let target_lsn = state.watermarks.last_sync;
        if target_lsn == local_lsn {
            return Storage::receive_remote_commit(state, remote_snapshot, changed);
        }
        let mut batch = Batch::new(state.vid);
        let reset_snapshot: Option<Snapshot> = match target_lsn {
            Some(target) => {
                let snapshot = Snapshot {
                    local: target,
                    remote: Some(remote_snapshot.lsn),
                    pages: remote_snapshot.pages,
                };
                batch.push(Write::PutSnapshot(snapshot));
                Some(snapshot)
            },
            None => {
                batch.push(Write::RemoveSnapshot);
                None
            },
        };
        batch.push(Write::RemoveStatus);
        let watermarks = state.watermarks.rollback_pending_sync();
        batch.push(Write::PutWatermarks(watermarks));
        let ghost head = batch@;
        let ghost rows = commits_view(commits@);
        let mut next: usize = 0;
        while next < commits.len()
            invariant
                next <= commits@.len(),
                rows == commits_view(commits@),
                batch@ == head + commit_rollbacks(rows.subrange(0, next as int)),
                batch.volume() == state.vid,
                batch.published() is None,
            decreases commits@.len() - next,
        {
            let lsn = commits[next].0;
            let ghost done = batch@;
            batch.push(Write::RemoveCommit { lsn });
            let ghost removed = batch@;
            let offsets = &commits[next].1;
            let mut index: usize = 0;
            while index < offsets.len()
                invariant
                    index <= offsets@.len(),
                    batch@ == removed + page_removals(offsets@.subrange(0, index as int), lsn),
                    batch.volume() == state.vid,
                    batch.published() is None,
                decreases offsets@.len() - index,
            {
                let offset = offsets[index];
                batch.push(Write::RemovePage { offset, lsn });
                proof {
                    let grown = offsets@.subrange(0, index + 1);
                    let prefix = offsets@.subrange(0, index as int);
                    assert(grown =~= prefix.push(offset));
                    assert(removed + page_removals(grown, lsn) =~= (removed + page_removals(
                        prefix,
                        lsn,
                    )).push(Change::RemovePage { offset, lsn }));
                }
                index += 1;
            }
            proof {
                assert(offsets@.subrange(0, offsets@.len() as int) =~= offsets@);
                let grown = rows.subrange(0, next + 1);
                assert(grown.drop_last() =~= rows.subrange(0, next as int));
                assert(grown.last() == (lsn, offsets@));
                assert(batch@ =~= head + commit_rollbacks(grown));
            }
            next += 1;
        }
        assert(rows.subrange(0, commits@.len() as int) =~= rows);
        let reset = VolumeState {
            vid: state.vid,
            config: state.config,
            snapshot: reset_snapshot,
            watermarks,
            status: VolumeStatus::Okay,
        };
        Storage::push_remote_apply(&mut batch, &reset, remote_snapshot, changed);
        batch.publish(Notice::RemoteChanged);
        (batch, Ok(()))
    }
}

} // verus!
