//! The rows of one volume as a mathematical value, and what a batch of
//! changes does to them.

use vstd::prelude::*;

use crate::batch::Change;
use crate::page::PageContent;
use crate::snapshot::{lsn_or_zero, Snapshot};
use crate::volume_id::VolumeId;
use crate::volume_state::{local_lsn, VolumeConfig, VolumeState, VolumeStatus, Watermarks};

verus! {

/// Everything that the three partitions hold of one volume.
pub struct Volume {
    /// The configuration row.
    pub config: Option<VolumeConfig>,
    /// The snapshot row.
    pub snapshot: Option<Snapshot>,
    /// The watermarks row.
    pub watermarks: Option<Watermarks>,
    /// The status row.
    pub status: Option<VolumeStatus>,
    /// The page rows, by offset and sequence number.
    pub pages: Map<(u32, u64), PageContent>,
    /// The commit rows: the offsets changed at each sequence number.
    pub commits: Map<u64, Set<u32>>,
}

impl Volume {
    /// A volume of which nothing is stored.
    pub open spec fn empty() -> Volume {
        Volume {
            config: None,
            snapshot: None,
            watermarks: None,
            status: None,
            pages: Map::empty(),
            commits: Map::empty(),
        }
    }

    /// The rows after one change.
    pub open spec fn apply(self, change: Change) -> Volume {
        match change {
            Change::PutConfig(config) => Volume { config: Some(config), ..self },
            Change::PutStatus(status) => Volume { status: Some(status), ..self },
            Change::RemoveStatus => Volume { status: None, ..self },
            Change::PutSnapshot(snapshot) => Volume { snapshot: Some(snapshot), ..self },
            Change::RemoveSnapshot => Volume { snapshot: None, ..self },
            Change::PutWatermarks(watermarks) => Volume { watermarks: Some(watermarks), ..self },
            Change::PutPage { offset, lsn, content } => Volume {
                pages: self.pages.insert((offset, lsn), content),
                ..self
            },
            Change::RemovePage { offset, lsn } => Volume {
                pages: self.pages.remove((offset, lsn)),
                ..self
            },
            Change::PutCommit { lsn, offsets } => Volume {
                commits: self.commits.insert(lsn, offsets),
                ..self
            },
            Change::RemoveCommit { lsn } => Volume { commits: self.commits.remove(lsn), ..self },
        }
    }

    /// The rows after a batch of changes, made in order.
    pub open spec fn apply_all(self, changes: Seq<Change>) -> Volume
        decreases changes.len(),
    {
        if changes.len() == 0 {
            self
        } else {
            self.apply_all(changes.drop_last()).apply(changes.last())
        }
    }

    /// What reading the tagged rows gives: an absent row has its default.
    pub open spec fn state(self, vid: VolumeId) -> VolumeState {
        VolumeState {
            vid,
            config: match self.config {
                Some(config) => config,
                None => VolumeConfig::spec_default(),
            },
            snapshot: self.snapshot,
            watermarks: self.effective_watermarks(),
            status: match self.status {
                Some(status) => status,
                None => VolumeStatus::Okay,
            },
        }
    }

    /// The watermarks, or the default where the row is absent.
    pub open spec fn effective_watermarks(self) -> Watermarks {
        match self.watermarks {
            Some(watermarks) => watermarks,
            None => Watermarks::spec_default(),
        }
    }

    /// The local sequence number, zero where the volume has no snapshot.
    pub open spec fn local(self) -> nat {
        lsn_or_zero(local_lsn(self.snapshot))
    }

    /// The last synced sequence number, zero where there is none.
    pub open spec fn last_sync(self) -> nat {
        lsn_or_zero(self.effective_watermarks().last_sync)
    }

    /// What a read of `offset` at `lsn` finds: the page value with the
    /// largest sequence number not above `lsn`, with that number; `Empty`
    /// with `lsn` where the offset has no value at or below it.
    pub open spec fn read(self, lsn: u64, offset: u32) -> (u64, PageContent) {
        if exists|at: u64| self.visible(lsn, offset, at) {
            let at = choose|at: u64| self.latest(lsn, offset, at);
            (at, self.pages[(offset, at)])
        } else {
            (lsn, PageContent::Empty)
        }
    }

    /// Whether `offset` has a page value at the sequence number `at`, and
    /// `at` is not above `lsn`.
    pub open spec fn visible(self, lsn: u64, offset: u32, at: u64) -> bool {
        at <= lsn && self.pages.contains_key((offset, at))
    }

    /// Whether `at` is the largest sequence number not above `lsn` at which
    /// `offset` has a page value.
    pub open spec fn latest(self, lsn: u64, offset: u32, at: u64) -> bool {
        self.visible(lsn, offset, at) && forall|other: u64| #[trigger]
            self.visible(lsn, offset, other) ==> other <= at
    }

    /// Making the changes of `first` and then those of `second` is making
    /// the changes of their concatenation.
    pub proof fn lemma_apply_concat(self, first: Seq<Change>, second: Seq<Change>)
        ensures
            self.apply_all(first + second) == self.apply_all(first).apply_all(second),
        decreases second.len(),
    {
        if second.len() == 0 {
            assert(first + second =~= first);
        } else {
            self.lemma_apply_concat(first, second.drop_last());
            assert((first + second).drop_last() =~= first + second.drop_last());
            assert((first + second).last() == second.last());
        }
    }

    /// Making one change is making a batch of one.
    pub proof fn lemma_apply_one(self, change: Change)
        ensures
            self.apply_all(seq![change]) == self.apply(change),
    {
        let one = seq![change];
        assert(one.drop_last() =~= Seq::<Change>::empty());
        assert(self.apply_all(one.drop_last()) == self);
    }

    /// Where some page value is visible, one of them is the latest.
    pub proof fn lemma_latest_exists(self, lsn: u64, offset: u32, at: u64)
        requires
            self.visible(lsn, offset, at),
        ensures
            exists|best: u64| self.latest(lsn, offset, best),
        decreases lsn - at,
    {
        if exists|other: u64| self.visible(lsn, offset, other) && other > at {
            let other = choose|other: u64| self.visible(lsn, offset, other) && other > at;
            self.lemma_latest_exists(lsn, offset, other);
        } else {
            assert(self.latest(lsn, offset, at));
        }
    }

    /// A read gives the page value with the largest sequence number not
    /// above the one asked for, at that sequence number, and `Empty` at
    /// the sequence number asked for where there is none.
    pub proof fn law_read_is_latest(self, lsn: u64, offset: u32)
        ensures
            (exists|at: u64| self.visible(lsn, offset, at)) ==> self.latest(
                lsn,
                offset,
                self.read(lsn, offset).0,
            ) && self.read(lsn, offset).1 == self.pages[(offset, self.read(lsn, offset).0)],
            !(exists|at: u64| self.visible(lsn, offset, at)) ==> self.read(lsn, offset) == (
                lsn,
                PageContent::Empty,
            ),
    {
        if exists|at: u64| self.visible(lsn, offset, at) {
            let at = choose|at: u64| self.visible(lsn, offset, at);
            self.lemma_latest_exists(lsn, offset, at);
            let best = choose|best: u64| self.latest(lsn, offset, best);
            self.lemma_read_latest(lsn, offset, best);
        }
    }

    /// A read finds the page value at `at` when that is the latest one
    /// visible.
    pub proof fn lemma_read_latest(self, lsn: u64, offset: u32, at: u64)
        requires
            self.latest(lsn, offset, at),
        ensures
            self.read(lsn, offset) == (at, self.pages[(offset, at)]),
    {
        assert(self.visible(lsn, offset, at));
        let chosen = choose|best: u64| self.latest(lsn, offset, best);
        assert(self.visible(lsn, offset, chosen));
        assert(chosen <= at && at <= chosen);
    }
}

} // verus!
