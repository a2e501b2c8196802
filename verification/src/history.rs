//! Volumes over any sequence of the store's decisions.

use vstd::prelude::*;

use crate::batch::Change;
use crate::laws::{
    law_commit, law_complete_sync, law_prepare_sync, law_receive_pages,
    law_receive_remote_commit, law_reset_volume_to_remote, law_rollback_sync, rows_whole,
};
use crate::memtable::rows_sorted;
use crate::snapshot::{lsn_or_zero, Snapshot, FIRST_LSN};
use crate::storage::{
    commit_changes, complete_sync_changes, received_changes, remote_apply, reset_to_remote,
    rollback_sync_changes, RemoteSnapshot,
};
use crate::volume::Volume;
use crate::volume_id::VolumeId;
use crate::volume_state::{local_lsn, VolumeConfig, Watermarks};

verus! {

/// One decision of the store on a volume, with what its caller hands in.
pub enum Operation {
    /// Sets the volume's configuration.
    SetConfig { config: VolumeConfig },
    /// Commits the rows of a memtable on top of the snapshot `read`.
    Commit { read: Option<Snapshot>, rows: Seq<(u32, Seq<u8>)> },
    /// Takes in a remote commit.
    ReceiveRemoteCommit { remote: RemoteSnapshot, changed: Seq<u32> },
    /// Stores fetched pages at a sequence number.
    ReceivePages { pages: Seq<(u32, Seq<u8>)>, lsn: u64 },
    /// Prepares a push.
    PrepareSync,
    /// Gives a push up.
    RollbackSync { rejected: bool },
    /// Completes the push that was prepared.
    CompleteSync { remote: RemoteSnapshot },
    /// Resets the volume to the remote.
    Reset { commits: Seq<(u64, Seq<u32>)>, remote: RemoteSnapshot, changed: Seq<u32> },
}

/// The remote sequence number of a volume, zero where it has none.
pub open spec fn remote_lsn(volume: Volume) -> nat {
    match volume.snapshot {
        Some(snapshot) => lsn_or_zero(snapshot.remote),
        None => 0,
    }
}

impl Operation {
    /// Whether the store makes this decision on `volume` with these
    /// inputs: what each decision asks of its caller.
    ///
    /// - A commit is built on a snapshot at the volume's local sequence
    ///   number, and writes whole pages in the order of their offsets.
    /// - Sequence numbers do not run out.
    /// - A remote commit carries a real sequence number.
    /// - Fetched pages are page values, stored at a sequence number that
    ///   was synced.
    /// - A push is prepared while local commits are unsent and no push
    ///   needs recovery.
    /// - A push is completed while one is pending, with a remote sequence
    ///   number past the volume's.
    /// - A reset is handed the commit rows of the volume.
    pub open spec fn allowed(self, volume: Volume, vid: VolumeId) -> bool {
        match self {
            Operation::SetConfig { config } => true,
            Operation::Commit { read, rows } => local_lsn(read) == local_lsn(volume.snapshot) && (
            read matches Some(snapshot) ==> snapshot.wf()) && rows_sorted(rows) && rows_whole(rows)
                && volume.local() < u64::MAX,
            Operation::ReceiveRemoteCommit { remote, changed } => remote.lsn >= FIRST_LSN
                && volume.local() < u64::MAX,
            Operation::ReceivePages { pages, lsn } => FIRST_LSN <= lsn <= volume.last_sync()
                && received_changes(pages, lsn) is Ok,
            Operation::PrepareSync => volume.state(vid).spec_has_pending_commits()
                && !volume.state(vid).spec_needs_recovery(),
            Operation::RollbackSync { rejected } => true,
            Operation::CompleteSync { remote } => volume.snapshot is Some && volume.pending_sync() is Some
                && remote.lsn > remote_lsn(volume) && volume.last_sync() < u64::MAX,
            Operation::Reset { commits, remote, changed } => volume.commits_are(commits)
                && remote.lsn >= FIRST_LSN && volume.local() < u64::MAX,
        }
    }

    /// The changes of this decision on `volume`.
    pub open spec fn changes(self, volume: Volume, vid: VolumeId) -> Seq<Change> {
        match self {
            Operation::SetConfig { config } => seq![Change::PutConfig(config)],
            Operation::Commit { read, rows } => commit_changes(read, rows),
            Operation::ReceiveRemoteCommit { remote, changed } => remote_apply(
                volume.state(vid),
                remote,
                changed,
            ).0,
            Operation::ReceivePages { pages, lsn } => received_changes(pages, lsn)->Ok_0,
            Operation::PrepareSync => seq![
                Change::PutWatermarks(
                    Watermarks {
                        last_sync: volume.effective_watermarks().last_sync,
                        pending_sync: Some(volume.local() as u64),
                    },
                ),
            ],
            Operation::RollbackSync { rejected } => rollback_sync_changes(
                volume.effective_watermarks(),
                rejected,
            ),
            Operation::CompleteSync { remote } => complete_sync_changes(
                volume.state(vid),
                remote,
                (volume.last_sync() + 1) as u64,
                lsn_or_zero(volume.pending_sync()) as u64,
            ),
            Operation::Reset { commits, remote, changed } => reset_to_remote(
                volume.state(vid),
                commits,
                remote,
                changed,
            ).0,
        }
    }
}

/// The volume after one decision.
pub open spec fn step(volume: Volume, vid: VolumeId, operation: Operation) -> Volume {
    volume.apply_all(operation.changes(volume, vid))
}

/// The volume after a sequence of decisions, starting from nothing
/// stored.
pub open spec fn run(vid: VolumeId, operations: Seq<Operation>) -> Volume
    decreases operations.len(),
{
    if operations.len() == 0 {
        Volume::empty()
    } else {
        step(run(vid, operations.drop_last()), vid, operations.last())
    }
}

/// Whether each decision of the sequence is one that the store makes on
/// the volume as it then is.
pub open spec fn all_allowed(vid: VolumeId, operations: Seq<Operation>) -> bool
    decreases operations.len(),
{
    operations.len() == 0 || (all_allowed(vid, operations.drop_last()) && operations.last().allowed(
        run(vid, operations.drop_last()),
        vid,
    ))
}

/// Every decision keeps the invariant. The local sequence number moves
/// one up with a commit and with a remote commit that is taken in, and
/// stays with every other decision but a reset. The remote sequence
/// number stays or grows with every decision that is not handed a remote
/// sequence number below the volume's, nor a snapshot to commit on that
/// is not the volume's.
pub proof fn law_step(volume: Volume, vid: VolumeId, operation: Operation)
    requires
        volume.inv(),
        operation.allowed(volume, vid),
    ensures
        step(volume, vid, operation).inv(),
        operation is Commit ==> step(volume, vid, operation).local() == volume.local() + 1,
        !(operation is Reset) ==> volume.local() <= step(volume, vid, operation).local()
            <= volume.local() + 1,
        (operation matches Operation::ReceiveRemoteCommit { remote, .. } ==> remote.lsn
            >= remote_lsn(volume)) && (operation matches Operation::Reset { remote, .. }
            ==> remote.lsn >= remote_lsn(volume)) && (operation matches Operation::Commit {
            read,
            ..
        } ==> read == volume.snapshot) ==> remote_lsn(step(volume, vid, operation)) >= remote_lsn(
            volume,
        ),
{
    match operation {
        Operation::SetConfig { config } => {
            volume.lemma_apply_one(Change::PutConfig(config));
            assert(step(volume, vid, operation) == (Volume { config: Some(config), ..volume }));
        },
        Operation::Commit { read, rows } => {
            law_commit(volume, read, rows);
        },
        Operation::ReceiveRemoteCommit { remote, changed } => {
            law_receive_remote_commit(volume, vid, remote, changed);
        },
        Operation::ReceivePages { pages, lsn } => {
            law_receive_pages(volume, pages, lsn);
        },
        Operation::PrepareSync => {
            assert(volume.snapshot is Some);
            law_prepare_sync(volume, vid);
        },
        Operation::RollbackSync { rejected } => {
            law_rollback_sync(volume, vid, rejected);
        },
        Operation::CompleteSync { remote } => {
            law_complete_sync(
                volume,
                vid,
                remote,
                (volume.last_sync() + 1) as u64,
                lsn_or_zero(volume.pending_sync()) as u64,
            );
        },
        Operation::Reset { commits, remote, changed } => {
            law_reset_volume_to_remote(volume, vid, commits, remote, changed);
        },
    }
}

/// Over any sequence of decisions on a volume: `last_sync` is not past
/// `pending_sync` where a push is pending, and neither is past the local
/// sequence number; every page row is at a sequence number not past the
/// local one; and every offset that a commit row lists has a page row at
/// the commit's sequence number.
pub proof fn law_history(vid: VolumeId, operations: Seq<Operation>)
    requires
        all_allowed(vid, operations),
    ensures
        ({
            let volume = run(vid, operations);
            &&& volume.inv()
            &&& volume.last_sync() <= volume.local()
            &&& volume.pending_sync() matches Some(pending) ==> volume.last_sync() <= pending
                <= volume.local()
            &&& forall|offset: u32, at: u64| #[trigger]
                volume.pages.contains_key((offset, at)) ==> at <= volume.local()
            &&& forall|lsn: u64, offset: u32|
                volume.commits.contains_key(lsn) && #[trigger] volume.commits[lsn].contains(offset)
                    ==> volume.pages.contains_key((offset, lsn))
        }),
    decreases operations.len(),
{
    if operations.len() > 0 {
        law_history(vid, operations.drop_last());
        law_step(run(vid, operations.drop_last()), vid, operations.last());
    }
}

} // verus!
