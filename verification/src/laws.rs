//! What holds of a volume whatever the store decides.
//!
//! The invariant of a volume's rows, and for each decision of the store
//! what its batch does to a volume whose rows meet the invariant.

use vstd::prelude::*;

use crate::batch::Change;
use crate::effects::{
    commits_have, commits_list, lemma_apply_three, lemma_apply_two, lemma_commit_removals,
    lemma_commit_rollbacks, lemma_page_puts, lemma_pending_puts,
};
use crate::error::StorageErr;
use crate::memtable::{rows_have, rows_offsets, rows_sorted};
use crate::page::{PageContent, PAGESIZE};
use crate::snapshot::{lsn_or_zero, Snapshot, FIRST_LSN};
use crate::storage::{
    commit_changes, commit_removals, commit_rollbacks, commit_snapshot, complete_sync_changes,
    next_lsn, page_puts, pending_puts, received_changes, remote_apply, remote_apply_changes,
    reset_changes, reset_state, reset_to_remote, rollback_sync_changes, sync_range,
    RemoteSnapshot,
};
use crate::volume::Volume;
use crate::volume_id::VolumeId;
use crate::volume_state::{local_lsn, VolumeStatus, Watermarks};

verus! {

impl Volume {
    /// The sequence number that a push in flight will reach, if one was
    /// recorded.
    pub open spec fn pending_sync(self) -> Option<u64> {
        self.effective_watermarks().pending_sync
    }

    /// The invariant of a volume's rows.
    ///
    /// - The snapshot and the watermarks hold real sequence numbers.
    /// - `last_sync` is not past the local sequence number, and
    ///   `pending_sync`, where present, lies between the two.
    /// - Every page row is at a real sequence number not past the local
    ///   one, and holds a pending marker or a whole page.
    /// - The commit rows are those of the sequence numbers past
    ///   `last_sync`, up to the local one.
    /// - Every offset that a commit lists has a page row at the commit's
    ///   sequence number.
    /// - Every page row past `last_sync` is listed by the commit at its
    ///   sequence number.
    pub open spec fn inv(self) -> bool {
        &&& (self.snapshot matches Some(snapshot) ==> snapshot.wf())
        &&& self.effective_watermarks().wf()
        &&& self.last_sync() <= self.local()
        &&& (self.pending_sync() matches Some(pending) ==> self.last_sync() <= pending
            <= self.local())
        &&& forall|offset: u32, at: u64| #[trigger]
            self.pages.contains_key((offset, at)) ==> FIRST_LSN <= at <= self.local()
                && self.pages[(offset, at)].storable()
        &&& forall|lsn: u64| #[trigger]
            self.commits.contains_key(lsn) <==> self.last_sync() < lsn <= self.local()
        &&& forall|lsn: u64, offset: u32|
            self.commits.contains_key(lsn) && #[trigger] self.commits[lsn].contains(offset)
                ==> self.pages.contains_key((offset, lsn))
        &&& forall|offset: u32, at: u64| #[trigger]
            self.pages.contains_key((offset, at)) && at > self.last_sync()
                ==> self.commits[at].contains(offset)
    }

    /// Whether `commits` are the commit rows of the volume, each with the
    /// offsets that its bitmap holds.
    pub open spec fn commits_are(self, commits: Seq<(u64, Seq<u32>)>) -> bool {
        &&& forall|lsn: u64| #[trigger]
            self.commits.contains_key(lsn) <==> commits_have(commits, lsn)
        &&& forall|i: int, offset: u32|
            0 <= i < commits.len() ==> (#[trigger] commits[i].1.contains(offset)
                <==> self.commits[commits[i].0].contains(offset))
    }
}

/// Whether every row holds a whole page.
pub open spec fn rows_whole(rows: Seq<(u32, Seq<u8>)>) -> bool {
    forall|i: int| 0 <= i < rows.len() ==> (#[trigger] rows[i]).1.len() == PAGESIZE
}

/// A volume of which nothing is stored meets the invariant.
pub proof fn law_empty_volume()
    ensures
        Volume::empty().inv(),
{
}

/// A commit that is accepted, because the snapshot it was built on is at
/// the volume's local sequence number, moves that number one up and keeps
/// the remote one of the snapshot it was built on; it leaves the
/// watermarks and the status as they were; it records the offsets
/// written; a read of a written offset at the new snapshot gives the page
/// written; and a second commit built on the same snapshot is refused.
pub proof fn law_commit(volume: Volume, read: Option<Snapshot>, rows: Seq<(u32, Seq<u8>)>)
    requires
        volume.inv(),
        local_lsn(read) == local_lsn(volume.snapshot),
        read matches Some(snapshot) ==> snapshot.wf(),
        rows_sorted(rows),
        rows_whole(rows),
        volume.local() < u64::MAX,
    ensures
        ({
            let after = volume.apply_all(commit_changes(read, rows));
            let lsn = next_lsn(local_lsn(read));
            &&& after.inv()
            &&& after.snapshot == Some(commit_snapshot(read, rows))
            &&& after.local() == volume.local() + 1
            &&& lsn == after.local()
            &&& after.snapshot->Some_0.remote == match read {
                Some(snapshot) => snapshot.remote,
                None => None,
            }
            &&& after.watermarks == volume.watermarks
            &&& after.status == volume.status
            &&& after.config == volume.config
            &&& after.commits == volume.commits.insert(lsn, rows_offsets(rows).to_set())
            &&& forall|i: int|
                0 <= i < rows.len() ==> after.read(lsn, #[trigger] rows[i].0) == (
                    lsn,
                    PageContent::Available(rows[i].1),
                )
            &&& local_lsn(after.snapshot) != local_lsn(read)
        }),
{
    let lsn = next_lsn(local_lsn(read));
    let snapshot = commit_snapshot(read, rows);
    let offsets = rows_offsets(rows).to_set();
    let puts = page_puts(rows, lsn);
    let tail = seq![Change::PutSnapshot(snapshot), Change::PutCommit { lsn, offsets }];
    volume.lemma_apply_concat(puts, tail);
    lemma_page_puts(volume, rows, lsn);
    let middle = volume.apply_all(puts);
    lemma_apply_two(middle, Change::PutSnapshot(snapshot), Change::PutCommit { lsn, offsets });
    let after = volume.apply_all(commit_changes(read, rows));
    assert(after.pages == middle.pages);
    assert(after.commits == volume.commits.insert(lsn, offsets));
    assert forall|offset: u32| offsets.contains(offset) <==> rows_have(rows, offset) by {
        if offsets.contains(offset) {
            let i = choose|i: int|
                0 <= i < rows_offsets(rows).len() && rows_offsets(rows)[i] == offset;
            assert(rows[i].0 == offset);
        }
        if rows_have(rows, offset) {
            let i = choose|i: int| 0 <= i < rows.len() && #[trigger] rows[i].0 == offset;
            assert(rows_offsets(rows)[i] == offset);
        }
    }
    assert forall|offset: u32, at: u64| #[trigger]
        after.pages.contains_key((offset, at)) implies FIRST_LSN <= at <= after.local()
        && after.pages[(offset, at)].storable() by {
        if at == lsn && rows_have(rows, offset) {
            let i = choose|i: int| 0 <= i < rows.len() && #[trigger] rows[i].0 == offset;
            assert(after.pages[(rows[i].0, lsn)] == PageContent::Available(rows[i].1));
        } else {
            assert(volume.pages.contains_key((offset, at)));
            assert(after.pages[(offset, at)] == volume.pages[(offset, at)]);
        }
    }
    assert forall|at: u64, offset: u32|
        after.commits.contains_key(at) && #[trigger] after.commits[at].contains(
            offset,
        ) implies after.pages.contains_key((offset, at)) by {
        if at != lsn {
            assert(volume.commits.contains_key(at));
            assert(volume.commits[at].contains(offset));
            assert(volume.pages.contains_key((offset, at)));
        }
    }
    assert forall|offset: u32, at: u64| #[trigger]
        after.pages.contains_key((offset, at)) && at > after.last_sync()
        implies after.commits[at].contains(offset) by {
        if at == lsn && rows_have(rows, offset) {
        } else {
            assert(volume.pages.contains_key((offset, at)));
            assert(at != lsn);
            assert(volume.commits[at].contains(offset));
        }
    }
    assert forall|i: int| 0 <= i < rows.len() implies after.read(lsn, #[trigger] rows[i].0) == (
        lsn,
        PageContent::Available(rows[i].1),
    ) by {
        let offset = rows[i].0;
        assert(rows_have(rows, offset));
        assert(after.pages.contains_key((offset, lsn)));
        assert(after.visible(lsn, offset, lsn));
        assert(after.latest(lsn, offset, lsn));
        after.lemma_read_latest(lsn, offset, lsn);
    }
}

/// A remote commit is refused, without any change, while a push needs
/// recovery; it is refused, and the status becomes `Conflict`, while local
/// commits are unsent. Otherwise the local sequence number moves one up,
/// the snapshot takes the remote's sequence number and page count, both
/// watermarks move to the new local sequence number, so that nothing is
/// left to push, and every changed offset reads as pending.
pub proof fn law_receive_remote_commit(
    volume: Volume,
    vid: VolumeId,
    remote: RemoteSnapshot,
    changed: Seq<u32>,
)
    requires
        volume.inv(),
        remote.lsn >= FIRST_LSN,
        volume.local() < u64::MAX,
    ensures
        ({
            let outcome = remote_apply(volume.state(vid), remote, changed);
            let after = volume.apply_all(outcome.0);
            let lsn = next_lsn(local_lsn(volume.snapshot));
            &&& after.inv()
            &&& outcome.1 == Some(StorageErr::VolumeNeedsRecovery) ==> after == volume
            &&& outcome.1 == Some(StorageErr::RemoteConflict) ==> after == (Volume {
                status: Some(VolumeStatus::Conflict),
                ..volume
            })
            &&& outcome.1 is None ==> {
                &&& after.local() == volume.local() + 1
                &&& after.snapshot == Some(
                    Snapshot { local: lsn, remote: Some(remote.lsn), pages: remote.pages },
                )
                &&& after.watermarks == Some(
                    Watermarks { last_sync: Some(lsn), pending_sync: Some(lsn) },
                )
                &&& !after.state(vid).spec_has_pending_commits()
                &&& !after.state(vid).spec_is_syncing()
                &&& after.status == volume.status
                &&& after.commits == volume.commits
                &&& forall|offset: u32|
                    changed.contains(offset) ==> #[trigger] after.read(lsn, offset) == (
                        lsn,
                        PageContent::Pending,
                    )
            }
        }),
{
    let state = volume.state(vid);
    let outcome = remote_apply(state, remote, changed);
    if state.spec_needs_recovery() {
    } else if state.spec_has_pending_commits() {
        volume.lemma_apply_one(Change::PutStatus(VolumeStatus::Conflict));
    } else {
        lemma_accepted_remote_apply(volume, vid, remote, changed);
    }
}

/// What an accepted remote commit does to a volume that has nothing to
/// push.
pub proof fn lemma_accepted_remote_apply(
    volume: Volume,
    vid: VolumeId,
    remote: RemoteSnapshot,
    changed: Seq<u32>,
)
    requires
        volume.inv(),
        remote.lsn >= FIRST_LSN,
        volume.local() < u64::MAX,
        volume.local() == volume.last_sync(),
    ensures
        ({
            let after = volume.apply_all(remote_apply_changes(volume.state(vid), remote, changed));
            let lsn = next_lsn(local_lsn(volume.snapshot));
            &&& after.inv()
            &&& after.local() == volume.local() + 1
            &&& after.snapshot == Some(
                Snapshot { local: lsn, remote: Some(remote.lsn), pages: remote.pages },
            )
            &&& after.watermarks == Some(Watermarks { last_sync: Some(lsn), pending_sync: Some(lsn) })
            &&& !after.state(vid).spec_has_pending_commits()
            &&& !after.state(vid).spec_is_syncing()
            &&& after.status == volume.status
            &&& after.config == volume.config
            &&& after.commits == volume.commits
            &&& forall|offset: u32, at: u64| #[trigger]
                after.pages.contains_key((offset, at)) <==> volume.pages.contains_key((offset, at))
                    || (at == lsn && changed.contains(offset))
            &&& forall|offset: u32|
                changed.contains(offset) ==> #[trigger] after.read(lsn, offset) == (
                    lsn,
                    PageContent::Pending,
                )
        }),
{
    let state = volume.state(vid);
    let lsn = next_lsn(local_lsn(volume.snapshot));
    let put_snapshot = Change::PutSnapshot(
        Snapshot { local: lsn, remote: Some(remote.lsn), pages: remote.pages },
    );
    let put_watermarks = Change::PutWatermarks(
        Watermarks { last_sync: Some(lsn), pending_sync: Some(lsn) },
    );
    let head = seq![put_snapshot, put_watermarks];
    volume.lemma_apply_concat(head, pending_puts(changed, lsn));
    lemma_apply_two(volume, put_snapshot, put_watermarks);
    let middle = volume.apply_all(head);
    lemma_pending_puts(middle, changed, lsn);
    let after = volume.apply_all(remote_apply_changes(state, remote, changed));
    assert forall|offset: u32, at: u64| #[trigger]
        after.pages.contains_key((offset, at)) implies FIRST_LSN <= at <= after.local()
        && after.pages[(offset, at)].storable() by {
        if at == lsn && changed.contains(offset) {
            assert(after.pages[(offset, lsn)] == PageContent::Pending);
        } else {
            assert(volume.pages.contains_key((offset, at)));
            assert(after.pages[(offset, at)] == volume.pages[(offset, at)]);
        }
    }
    assert forall|at: u64| #[trigger] after.commits.contains_key(at) <==> after.last_sync() < at
        <= after.local() by {
        if after.commits.contains_key(at) {
            assert(volume.commits.contains_key(at));
        }
    }
    assert forall|at: u64, offset: u32|
        after.commits.contains_key(at) && #[trigger] after.commits[at].contains(
            offset,
        ) implies after.pages.contains_key((offset, at)) by {
        assert(volume.commits.contains_key(at));
    }
    assert forall|offset: u32| changed.contains(offset) implies #[trigger] after.read(lsn, offset)
        == (lsn, PageContent::Pending) by {
        assert(after.pages.contains_key((offset, lsn)));
        assert(after.visible(lsn, offset, lsn));
        assert(after.latest(lsn, offset, lsn));
        after.lemma_read_latest(lsn, offset, lsn);
    }
}

/// Preparing a push records the local sequence number as `pending_sync`
/// and changes nothing else: a push is then in flight.
pub proof fn law_prepare_sync(volume: Volume, vid: VolumeId)
    requires
        volume.inv(),
        volume.state(vid).spec_has_pending_commits(),
    ensures
        ({
            let pending = Watermarks {
                last_sync: volume.effective_watermarks().last_sync,
                pending_sync: Some(volume.snapshot->Some_0.local),
            };
            let after = volume.apply_all(seq![Change::PutWatermarks(pending)]);
            &&& after.inv()
            &&& after == (Volume { watermarks: Some(pending), ..volume })
            &&& after.state(vid).spec_is_syncing()
            &&& after.last_sync() == volume.last_sync()
            &&& lsn_or_zero(after.pending_sync()) == volume.local()
        }),
{
    let pending = Watermarks {
        last_sync: volume.effective_watermarks().last_sync,
        pending_sync: Some(volume.snapshot->Some_0.local),
    };
    volume.lemma_apply_one(Change::PutWatermarks(pending));
}

/// The commits of a push follow each other without a gap: a volume has a
/// commit row at every sequence number past `last_sync` up to the local
/// one.
pub proof fn law_no_missing_commit(volume: Volume, vid: VolumeId, lsn: u64)
    requires
        volume.inv(),
        sync_range(volume.state(vid)).0 <= lsn <= sync_range(volume.state(vid)).1,
        volume.last_sync() < u64::MAX,
    ensures
        volume.commits.contains_key(lsn),
{
}

/// Giving up a push takes `pending_sync` back to `last_sync`, records a
/// rejection in the status, and changes nothing else: no push is in
/// flight then, and the volume needs no recovery.
pub proof fn law_rollback_sync(volume: Volume, vid: VolumeId, rejected: bool)
    requires
        volume.inv(),
    ensures
        ({
            let after = volume.apply_all(
                rollback_sync_changes(volume.effective_watermarks(), rejected),
            );
            &&& after.inv()
            &&& after.last_sync() == volume.last_sync()
            &&& after.pending_sync() == volume.effective_watermarks().last_sync
            &&& after.snapshot == volume.snapshot
            &&& after.pages == volume.pages
            &&& after.commits == volume.commits
            &&& after.status == if rejected {
                Some(VolumeStatus::RejectedCommit)
            } else {
                volume.status
            }
            &&& !after.state(vid).spec_is_syncing()
            &&& !after.state(vid).spec_needs_recovery()
        }),
{
    let watermarks = volume.effective_watermarks();
    let rollback = Change::PutWatermarks(
        Watermarks { last_sync: watermarks.last_sync, pending_sync: watermarks.last_sync },
    );
    if rejected {
        assert(rollback_sync_changes(watermarks, rejected) =~= seq![
            rollback,
            Change::PutStatus(VolumeStatus::RejectedCommit),
        ]);
        lemma_apply_two(volume, rollback, Change::PutStatus(VolumeStatus::RejectedCommit));
    } else {
        volume.lemma_apply_one(rollback);
    }
}

/// Completing a push makes the former `pending_sync` the new `last_sync`,
/// with no push pending; the snapshot keeps its local sequence number and
/// page count and takes the remote's sequence number, which is larger
/// than the one before; and no commit row is left at any sequence number
/// from `first` to `last`. Where those are the numbers that the push was
/// prepared for, the invariant holds again.
pub proof fn law_complete_sync(
    volume: Volume,
    vid: VolumeId,
    remote: RemoteSnapshot,
    first: u64,
    last: u64,
)
    requires
        volume.inv(),
        volume.snapshot is Some,
        volume.pending_sync() is Some,
        remote.lsn >= FIRST_LSN,
        lsn_or_zero(volume.snapshot->Some_0.remote) < remote.lsn,
    ensures
        ({
            let after = volume.apply_all(
                complete_sync_changes(volume.state(vid), remote, first, last),
            );
            &&& after.effective_watermarks().last_sync == volume.pending_sync()
            &&& after.pending_sync() is None
            &&& after.local() == volume.local()
            &&& after.snapshot->Some_0.pages == volume.snapshot->Some_0.pages
            &&& after.snapshot->Some_0.remote == Some(remote.lsn)
            &&& lsn_or_zero(after.snapshot->Some_0.remote) > lsn_or_zero(
                volume.snapshot->Some_0.remote,
            )
            &&& after.pages == volume.pages
            &&& after.status == volume.status
            &&& forall|lsn: u64| first <= lsn <= last ==> !#[trigger] after.commits.contains_key(lsn)
            &&& (first == volume.last_sync() + 1 && Some(last) == volume.pending_sync())
                ==> after.inv()
        }),
{
    let state = volume.state(vid);
    let put_snapshot = Change::PutSnapshot(
        Snapshot {
            local: state.snapshot->Some_0.local,
            remote: Some(remote.lsn),
            pages: state.snapshot->Some_0.pages,
        },
    );
    let put_watermarks = Change::PutWatermarks(
        Watermarks { last_sync: state.watermarks.pending_sync, pending_sync: None },
    );
    let head = seq![put_snapshot, put_watermarks];
    volume.lemma_apply_concat(head, commit_removals(first, last));
    lemma_apply_two(volume, put_snapshot, put_watermarks);
    let middle = volume.apply_all(head);
    lemma_commit_removals(middle, first, last);
    let after = volume.apply_all(complete_sync_changes(state, remote, first, last));
    if first == volume.last_sync() + 1 && Some(last) == volume.pending_sync() {
        assert forall|lsn: u64| #[trigger]
            after.commits.contains_key(lsn) <==> after.last_sync() < lsn <= after.local() by {
            if after.commits.contains_key(lsn) {
                assert(volume.commits.contains_key(lsn));
            }
            if after.last_sync() < lsn <= after.local() {
                assert(volume.commits.contains_key(lsn));
            }
        }
        assert forall|lsn: u64, offset: u32|
            after.commits.contains_key(lsn) && #[trigger] after.commits[lsn].contains(
                offset,
            ) implies after.pages.contains_key((offset, lsn)) by {
            assert(volume.commits.contains_key(lsn));
            assert(volume.commits[lsn].contains(offset));
        }
        assert forall|offset: u32, at: u64| #[trigger]
            after.pages.contains_key((offset, at)) && at > after.last_sync()
            implies after.commits[at].contains(offset) by {
            assert(volume.pages.contains_key((offset, at)));
            assert(volume.commits[at].contains(offset));
            assert(after.commits.contains_key(at));
        }
    }
}

/// A reset to the remote takes the volume to the sequence number after
/// its last sync, with the remote's sequence number and page count; both
/// watermarks are there; the status is cleared; no commit row and no page
/// row past that sequence number is left; and every changed offset reads
/// as pending.
pub proof fn law_reset_volume_to_remote(
    volume: Volume,
    vid: VolumeId,
    commits: Seq<(u64, Seq<u32>)>,
    remote: RemoteSnapshot,
    changed: Seq<u32>,
)
    requires
        volume.inv(),
        volume.commits_are(commits),
        remote.lsn >= FIRST_LSN,
        volume.local() < u64::MAX,
    ensures
        ({
            let outcome = reset_to_remote(volume.state(vid), commits, remote, changed);
            let after = volume.apply_all(outcome.0);
            let lsn = next_lsn(volume.effective_watermarks().last_sync);
            &&& outcome.1 is None
            &&& after.inv()
            &&& after.local() == volume.last_sync() + 1
            &&& after.snapshot == Some(
                Snapshot { local: lsn, remote: Some(remote.lsn), pages: remote.pages },
            )
            &&& after.watermarks == Some(Watermarks { last_sync: Some(lsn), pending_sync: Some(lsn) })
            &&& !after.state(vid).spec_has_pending_commits()
            &&& !after.state(vid).spec_needs_recovery()
            &&& volume.local() != volume.last_sync() ==> after.status is None
            &&& forall|at: u64| !#[trigger] after.commits.contains_key(at)
            &&& forall|offset: u32, at: u64| #[trigger]
                after.pages.contains_key((offset, at)) ==> at <= lsn
            &&& forall|offset: u32|
                changed.contains(offset) ==> #[trigger] after.read(lsn, offset) == (
                    lsn,
                    PageContent::Pending,
                )
        }),
{
    let state = volume.state(vid);
    if state.watermarks.last_sync == local_lsn(state.snapshot) {
        lemma_accepted_remote_apply(volume, vid, remote, changed);
        let after = volume.apply_all(remote_apply_changes(state, remote, changed));
        assert forall|at: u64| !#[trigger] after.commits.contains_key(at) by {
            if after.commits.contains_key(at) {
                assert(volume.commits.contains_key(at));
            }
        }
    } else {
        let first = match state.watermarks.last_sync {
            Some(target) => Change::PutSnapshot(
                Snapshot { local: target, remote: Some(remote.lsn), pages: remote.pages },
            ),
            None => Change::RemoveSnapshot,
        };
        let third = Change::PutWatermarks(
            Watermarks {
                last_sync: state.watermarks.last_sync,
                pending_sync: state.watermarks.last_sync,
            },
        );
        let head = seq![first, Change::RemoveStatus, third];
        let reset = reset_changes(state, commits, remote);
        let target = reset_state(state, remote);
        volume.lemma_apply_concat(reset, remote_apply_changes(target, remote, changed));
        volume.lemma_apply_concat(head, commit_rollbacks(commits));
        lemma_apply_three(volume, first, Change::RemoveStatus, third);
        let cleared = volume.apply_all(head);
        assert(reset =~= head + commit_rollbacks(commits));
        assert(cleared.commits == volume.commits && cleared.pages == volume.pages);
        assert(cleared.config == volume.config && cleared.status is None);
        lemma_commit_rollbacks(cleared, commits);
        let back = volume.apply_all(reset);
        assert(back == cleared.apply_all(commit_rollbacks(commits)));
        assert(back.state(vid) == target);
        assert forall|at: u64| !#[trigger] back.commits.contains_key(at) by {
            if back.commits.contains_key(at) {
                assert(volume.commits.contains_key(at));
                assert(commits_have(commits, at));
            }
        }
        assert forall|offset: u32, at: u64| #[trigger]
            back.pages.contains_key((offset, at)) implies FIRST_LSN <= at <= back.local()
            && back.pages[(offset, at)].storable() by {
            assert(volume.pages.contains_key((offset, at)));
            if at > volume.last_sync() {
                assert(volume.commits[at].contains(offset));
                assert(volume.commits.contains_key(at));
                let i = choose|i: int| 0 <= i < commits.len() && #[trigger] commits[i].0 == at;
                assert(commits[i].1.contains(offset));
                assert(commits_list(commits, at, offset));
            }
        }
        assert(back.inv());
        lemma_accepted_remote_apply(back, vid, remote, changed);
        let after = back.apply_all(remote_apply_changes(target, remote, changed));
        assert forall|at: u64| !#[trigger] after.commits.contains_key(at) by {
            if after.commits.contains_key(at) {
                assert(back.commits.contains_key(at));
            }
        }
    }
}

/// Fetched pages written at a sequence number that was synced keep the
/// invariant: they change page rows only, at that sequence number.
pub proof fn law_receive_pages(volume: Volume, pages: Seq<(u32, Seq<u8>)>, lsn: u64)
    requires
        volume.inv(),
        FIRST_LSN <= lsn <= volume.last_sync(),
        received_changes(pages, lsn) is Ok,
    ensures
        ({
            let after = volume.apply_all(received_changes(pages, lsn)->Ok_0);
            &&& after.inv()
            &&& after.snapshot == volume.snapshot
            &&& after.watermarks == volume.watermarks
            &&& after.status == volume.status
            &&& after.commits == volume.commits
            &&& forall|offset: u32, at: u64| #[trigger]
                after.pages.contains_key((offset, at)) ==> volume.pages.contains_key((offset, at))
                    || at == lsn
        }),
    decreases pages.len(),
{
    if pages.len() > 0 {
        let head = pages.drop_last();
        law_receive_pages(volume, head, lsn);
        let changes = received_changes(pages, lsn)->Ok_0;
        let before = volume.apply_all(received_changes(head, lsn)->Ok_0);
        let content = PageContent::parse(pages.last().1)->Ok_0;
        content.lemma_round_trip(pages.last().1);
        assert(changes.drop_last() =~= received_changes(head, lsn)->Ok_0);
        let after = volume.apply_all(changes);
        assert(after.pages == before.pages.insert((pages.last().0, lsn), content));
        assert forall|at: u64, offset: u32|
            after.commits.contains_key(at) && #[trigger] after.commits[at].contains(
                offset,
            ) implies after.pages.contains_key((offset, at)) by {
            assert(before.pages.contains_key((offset, at)));
        }
    }
}

} // verus!
