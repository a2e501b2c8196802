//! What the batches of the store's decisions do to the rows of a volume.

use vstd::prelude::*;

use crate::batch::Change;
use crate::memtable::{rows_have, rows_sorted};
use crate::page::PageContent;
use crate::storage::{
    commit_removals, commit_rollbacks, page_puts, page_removals, pending_puts,
};
use crate::volume::Volume;

verus! {

/// Whether two volumes differ in their page rows at most.
pub open spec fn same_but_pages(a: Volume, b: Volume) -> bool {
    a.config == b.config && a.snapshot == b.snapshot && a.watermarks == b.watermarks && a.status
        == b.status && a.commits == b.commits
}

/// Whether some commit of `commits` is at `lsn`.
pub open spec fn commits_have(commits: Seq<(u64, Seq<u32>)>, lsn: u64) -> bool {
    exists|i: int| 0 <= i < commits.len() && #[trigger] commits[i].0 == lsn
}

/// Whether some commit of `commits` is at `lsn` and lists `offset`.
pub open spec fn commits_list(commits: Seq<(u64, Seq<u32>)>, lsn: u64, offset: u32) -> bool {
    exists|i: int|
        0 <= i < commits.len() && #[trigger] commits[i].0 == lsn && commits[i].1.contains(offset)
}

/// Making two changes in turn.
pub proof fn lemma_apply_two(volume: Volume, first: Change, second: Change)
    ensures
        volume.apply_all(seq![first, second]) == volume.apply(first).apply(second),
{
    let both = seq![first, second];
    assert(both.drop_last() =~= seq![first]);
    volume.lemma_apply_one(first);
}

/// Making three changes in turn.
pub proof fn lemma_apply_three(volume: Volume, first: Change, second: Change, third: Change)
    ensures
        volume.apply_all(seq![first, second, third]) == volume.apply(first).apply(second).apply(
            third,
        ),
{
    let all = seq![first, second, third];
    assert(all.drop_last() =~= seq![first, second]);
    lemma_apply_two(volume, first, second);
}

/// Writing the rows of a memtable at `lsn` adds a page at each of their
/// offsets, and changes nothing else.
pub proof fn lemma_page_puts(volume: Volume, rows: Seq<(u32, Seq<u8>)>, lsn: u64)
    requires
        rows_sorted(rows),
    ensures
        ({
            let after = volume.apply_all(page_puts(rows, lsn));
            &&& same_but_pages(after, volume)
            &&& forall|offset: u32, at: u64| #[trigger]
                after.pages.contains_key((offset, at)) <==> volume.pages.contains_key((offset, at))
                    || (at == lsn && rows_have(rows, offset))
            &&& forall|offset: u32, at: u64|
                volume.pages.contains_key((offset, at)) && !(at == lsn && rows_have(rows, offset))
                    ==> #[trigger] after.pages[(offset, at)] == volume.pages[(offset, at)]
            &&& forall|i: int|
                0 <= i < rows.len() ==> after.pages[(#[trigger] rows[i].0, lsn)]
                    == PageContent::Available(rows[i].1)
        }),
    decreases rows.len(),
{
    let puts = page_puts(rows, lsn);
    if rows.len() > 0 {
        let head = rows.drop_last();
        let last = rows.last();
        assert(puts.drop_last() =~= page_puts(head, lsn));
        lemma_page_puts(volume, head, lsn);
        let before = volume.apply_all(page_puts(head, lsn));
        let after = volume.apply_all(puts);
        assert(after.pages == before.pages.insert(
            (last.0, lsn),
            PageContent::Available(last.1),
        ));
        assert forall|offset: u32| rows_have(rows, offset) <==> (offset == last.0 || rows_have(
            head,
            offset,
        )) by {
            if rows_have(rows, offset) && offset != last.0 {
                let i = choose|i: int| 0 <= i < rows.len() && #[trigger] rows[i].0 == offset;
                assert(head[i].0 == offset);
            }
            if rows_have(head, offset) {
                let i = choose|i: int| 0 <= i < head.len() && #[trigger] head[i].0 == offset;
                assert(rows[i].0 == offset);
            }
            if offset == last.0 {
                assert(rows[rows.len() - 1].0 == offset);
            }
        }
        assert forall|i: int| 0 <= i < rows.len() implies after.pages[(#[trigger] rows[i].0, lsn)]
            == PageContent::Available(rows[i].1) by {
            if i < rows.len() - 1 {
                assert(rows[i].0 < rows[rows.len() - 1].0);
                assert(head[i] == rows[i]);
            }
        }
    }
}

/// Marking offsets as pending at `lsn` adds a marker at each of them, and
/// changes nothing else.
pub proof fn lemma_pending_puts(volume: Volume, offsets: Seq<u32>, lsn: u64)
    ensures
        ({
            let after = volume.apply_all(pending_puts(offsets, lsn));
            &&& same_but_pages(after, volume)
            &&& forall|offset: u32, at: u64| #[trigger]
                after.pages.contains_key((offset, at)) <==> volume.pages.contains_key((offset, at))
                    || (at == lsn && offsets.contains(offset))
            &&& forall|offset: u32, at: u64|
                volume.pages.contains_key((offset, at)) && !(at == lsn && offsets.contains(offset))
                    ==> #[trigger] after.pages[(offset, at)] == volume.pages[(offset, at)]
            &&& forall|offset: u32|
                offsets.contains(offset) ==> #[trigger] after.pages[(offset, lsn)]
                    == PageContent::Pending
        }),
    decreases offsets.len(),
{
    let puts = pending_puts(offsets, lsn);
    if offsets.len() > 0 {
        let head = offsets.drop_last();
        let last = offsets.last();
        assert(puts.drop_last() =~= pending_puts(head, lsn));
        lemma_pending_puts(volume, head, lsn);
        let before = volume.apply_all(pending_puts(head, lsn));
        let after = volume.apply_all(puts);
        assert(after.pages == before.pages.insert((last, lsn), PageContent::Pending));
        assert forall|offset: u32| offsets.contains(offset) <==> (offset == last || head.contains(
            offset,
        )) by {
            if offsets.contains(offset) && offset != last {
                let i = choose|i: int| 0 <= i < offsets.len() && offsets[i] == offset;
                assert(head[i] == offset);
            }
            if head.contains(offset) {
                let i = choose|i: int| 0 <= i < head.len() && head[i] == offset;
                assert(offsets[i] == offset);
            }
            if offset == last {
                assert(offsets[offsets.len() - 1] == offset);
            }
        }
    }
}

/// Removing the pages at offsets at `lsn` removes those rows, and changes
/// nothing else.
pub proof fn lemma_page_removals(volume: Volume, offsets: Seq<u32>, lsn: u64)
    ensures
        ({
            let after = volume.apply_all(page_removals(offsets, lsn));
            &&& same_but_pages(after, volume)
            &&& forall|offset: u32, at: u64| #[trigger]
                after.pages.contains_key((offset, at)) <==> volume.pages.contains_key((offset, at))
                    && !(at == lsn && offsets.contains(offset))
            &&& forall|offset: u32, at: u64| #[trigger]
                after.pages.contains_key((offset, at)) ==> after.pages[(offset, at)]
                    == volume.pages[(offset, at)]
        }),
    decreases offsets.len(),
{
    let removals = page_removals(offsets, lsn);
    if offsets.len() > 0 {
        let head = offsets.drop_last();
        let last = offsets.last();
        assert(removals.drop_last() =~= page_removals(head, lsn));
        lemma_page_removals(volume, head, lsn);
        let before = volume.apply_all(page_removals(head, lsn));
        let after = volume.apply_all(removals);
        assert(after.pages == before.pages.remove((last, lsn)));
        assert forall|offset: u32| offsets.contains(offset) <==> (offset == last || head.contains(
            offset,
        )) by {
            if offsets.contains(offset) && offset != last {
                let i = choose|i: int| 0 <= i < offsets.len() && offsets[i] == offset;
                assert(head[i] == offset);
            }
            if head.contains(offset) {
                let i = choose|i: int| 0 <= i < head.len() && head[i] == offset;
                assert(offsets[i] == offset);
            }
            if offset == last {
                assert(offsets[offsets.len() - 1] == offset);
            }
        }
    }
}

/// Removing the commits from `first` to `last` removes those rows, and
/// changes nothing else.
pub proof fn lemma_commit_removals(volume: Volume, first: u64, last: u64)
    ensures
        ({
            let after = volume.apply_all(commit_removals(first, last));
            &&& after.config == volume.config
            &&& after.snapshot == volume.snapshot
            &&& after.watermarks == volume.watermarks
            &&& after.status == volume.status
            &&& after.pages == volume.pages
            &&& forall|lsn: u64| #[trigger]
                after.commits.contains_key(lsn) <==> volume.commits.contains_key(lsn) && !(first
                    <= lsn <= last)
            &&& forall|lsn: u64| #[trigger]
                after.commits.contains_key(lsn) ==> after.commits[lsn] == volume.commits[lsn]
        }),
    decreases last - first,
{
    let removals = commit_removals(first, last);
    if first <= last {
        if first == last {
            assert(removals =~= seq![Change::RemoveCommit { lsn: first }]);
            volume.lemma_apply_one(Change::RemoveCommit { lsn: first });
        } else {
            let shorter = commit_removals(first, (last - 1) as u64);
            assert(removals.drop_last() =~= shorter);
            assert(removals.last() == Change::RemoveCommit { lsn: last });
            lemma_commit_removals(volume, first, (last - 1) as u64);
        }
    }
}

/// Rolling commits back removes their rows and the pages that they list,
/// and changes nothing else.
pub proof fn lemma_commit_rollbacks(volume: Volume, commits: Seq<(u64, Seq<u32>)>)
    ensures
        ({
            let after = volume.apply_all(commit_rollbacks(commits));
            &&& after.config == volume.config
            &&& after.snapshot == volume.snapshot
            &&& after.watermarks == volume.watermarks
            &&& after.status == volume.status
            &&& forall|lsn: u64| #[trigger]
                after.commits.contains_key(lsn) <==> volume.commits.contains_key(lsn)
                    && !commits_have(commits, lsn)
            &&& forall|lsn: u64| #[trigger]
                after.commits.contains_key(lsn) ==> after.commits[lsn] == volume.commits[lsn]
            &&& forall|offset: u32, at: u64| #[trigger]
                after.pages.contains_key((offset, at)) <==> volume.pages.contains_key((offset, at))
                    && !commits_list(commits, at, offset)
            &&& forall|offset: u32, at: u64| #[trigger]
                after.pages.contains_key((offset, at)) ==> after.pages[(offset, at)]
                    == volume.pages[(offset, at)]
        }),
    decreases commits.len(),
{
    if commits.len() > 0 {
        let head = commits.drop_last();
        let last = commits.last();
        let first_part = commit_rollbacks(head) + seq![Change::RemoveCommit { lsn: last.0 }];
        lemma_commit_rollbacks(volume, head);
        let before = volume.apply_all(commit_rollbacks(head));
        volume.lemma_apply_concat(first_part, page_removals(last.1, last.0));
        volume.lemma_apply_concat(commit_rollbacks(head), seq![Change::RemoveCommit { lsn: last.0 }]);
        before.lemma_apply_one(Change::RemoveCommit { lsn: last.0 });
        let middle = before.apply(Change::RemoveCommit { lsn: last.0 });
        lemma_page_removals(middle, last.1, last.0);
        let after = volume.apply_all(commit_rollbacks(commits));
        assert(after == middle.apply_all(page_removals(last.1, last.0)));
        assert forall|lsn: u64| commits_have(commits, lsn) <==> (lsn == last.0 || commits_have(
            head,
            lsn,
        )) by {
            if commits_have(commits, lsn) && lsn != last.0 {
                let i = choose|i: int| 0 <= i < commits.len() && #[trigger] commits[i].0 == lsn;
                assert(head[i].0 == lsn);
            }
            if commits_have(head, lsn) {
                let i = choose|i: int| 0 <= i < head.len() && #[trigger] head[i].0 == lsn;
                assert(commits[i].0 == lsn);
            }
            if lsn == last.0 {
                assert(commits[commits.len() - 1].0 == lsn);
            }
        }
        assert forall|offset: u32, at: u64|
            commits_list(commits, at, offset) <==> ((at == last.0 && last.1.contains(offset))
                || commits_list(head, at, offset)) by {
            if commits_list(commits, at, offset) && !(at == last.0 && last.1.contains(offset)) {
                let i = choose|i: int|
                    0 <= i < commits.len() && #[trigger] commits[i].0 == at
                        && commits[i].1.contains(offset);
                assert(head[i].0 == at && head[i].1.contains(offset));
            }
            if commits_list(head, at, offset) {
                let i = choose|i: int|
                    0 <= i < head.len() && #[trigger] head[i].0 == at && head[i].1.contains(
                        offset,
                    );
                assert(commits[i].0 == at && commits[i].1.contains(offset));
            }
            if at == last.0 && last.1.contains(offset) {
                assert(commits[commits.len() - 1].0 == at);
            }
        }
    }
}

} // verus!
