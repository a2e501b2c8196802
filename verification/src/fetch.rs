//! Fetching pending pages from the remote: what to ask for, and what to
//! make of the answer.

use vstd::prelude::*;

use crate::batch::{Batch, Change, Write};
use crate::bitmap::{bitmap_bytes, encode_offsets};
use crate::error::{PageValueErr, StorageErr};
use crate::page::{Page, PageContent, PageValue, PAGESIZE};
use crate::txn::zero_page;
use crate::volume_id::VolumeId;

verus! {

/// Whether some wanted page is at `offset`.
pub open spec fn wanted_has(wanted: Seq<(u32, u64)>, offset: u32) -> bool {
    exists|i: int| 0 <= i < wanted.len() && #[trigger] wanted[i].0 == offset
}

/// The offsets of the wanted pages, in their order.
pub open spec fn wanted_offsets(wanted: Seq<(u32, u64)>) -> Seq<u32> {
    Seq::new(wanted.len(), |i: int| wanted[i].0)
}

/// The pages to fetch among the candidates: those that are pending, each
/// offset once, with the sequence number of its marker, in the order of
/// the candidates.
pub open spec fn wanted_pages(candidates: Seq<(u32, u64, PageContent)>) -> Seq<(u32, u64)>
    decreases candidates.len(),
{
    if candidates.len() == 0 {
        Seq::empty()
    } else {
        let head = wanted_pages(candidates.drop_last());
        let last = candidates.last();
        if last.2 is Pending && !wanted_has(head, last.0) {
            head.push((last.0, last.1))
        } else {
            head
        }
    }
}

/// The page that the remote's answer holds for `offset`: that of the last
/// entry for the offset.
pub open spec fn fetched_page(response: Seq<(u32, Seq<u8>)>, offset: u32) -> Option<Seq<u8>>
    decreases response.len(),
{
    if response.len() == 0 {
        None
    } else if response.last().0 == offset {
        Some(response.last().1)
    } else {
        fetched_page(response.drop_last(), offset)
    }
}

/// Whether every entry of the answer for a wanted offset has the length
/// of a page. Entries for other offsets are not looked at.
pub open spec fn response_fits(response: Seq<(u32, Seq<u8>)>, wanted: Seq<(u32, u64)>) -> bool {
    forall|i: int|
        0 <= i < response.len() && wanted_has(wanted, (#[trigger] response[i]).0)
            ==> response[i].1.len() == PAGESIZE
}

/// The changes that store the answer: for each wanted page that the
/// answer holds, that page at the sequence number of its marker. A wanted
/// page that the answer does not hold stays pending.
pub open spec fn fetched_changes(wanted: Seq<(u32, u64)>, response: Seq<(u32, Seq<u8>)>) -> Seq<
    Change,
>
    decreases wanted.len(),
{
    if wanted.len() == 0 {
        Seq::empty()
    } else {
        let head = fetched_changes(wanted.drop_last(), response);
        match fetched_page(response, wanted.last().0) {
            Some(page) => head.push(
                Change::PutPage {
                    offset: wanted.last().0,
                    lsn: wanted.last().1,
                    content: PageContent::Available(page),
                },
            ),
            None => head,
        }
    }
}

/// The candidates handed to a plan, as plain values.
pub open spec fn candidates_view(candidates: Seq<(u32, u64, PageValue)>) -> Seq<
    (u32, u64, PageContent),
> {
    Seq::new(candidates.len(), |i: int| (candidates[i].0, candidates[i].1, candidates[i].2@))
}

/// The answer of the remote, as plain values.
pub open spec fn response_view(response: Seq<(u32, Vec<u8>)>) -> Seq<(u32, Seq<u8>)> {
    Seq::new(response.len(), |i: int| (response[i].0, response[i].1@))
}

/// The last entry for an offset is found among the entries up to the
/// last one for that offset.
pub proof fn lemma_fetched_page_prefix(response: Seq<(u32, Seq<u8>)>, offset: u32, len: int)
    requires
        0 <= len <= response.len(),
        forall|i: int| len <= i < response.len() ==> (#[trigger] response[i]).0 != offset,
    ensures
        fetched_page(response, offset) == fetched_page(response.subrange(0, len), offset),
    decreases response.len() - len,
{
    if len < response.len() {
        let shorter = response.drop_last();
        assert(shorter.subrange(0, len) =~= response.subrange(0, len));
        assert(response[response.len() - 1].0 != offset);
        lemma_fetched_page_prefix(shorter, offset, len);
    } else {
        assert(response.subrange(0, len) =~= response);
    }
}

/// What to ask the remote for: the wanted pages, and the serialized bitmap
/// of their offsets.
#[derive(Debug, PartialEq, Eq)]
pub struct FetchPlan {
    /// The serialized bitmap of the wanted offsets.
    pub graft: Vec<u8>,
    /// The wanted pages: each offset with the sequence number of its
    /// pending marker.
    pub wanted: Vec<(u32, u64)>,
}

/// Whether `offset` is among the wanted pages.
pub fn is_wanted(wanted: &Vec<(u32, u64)>, offset: u32) -> (found: bool)
    ensures
        found == wanted_has(wanted@, offset),
{
    let mut next: usize = 0;
    while next < wanted.len()
        invariant
            next <= wanted@.len(),
            forall|i: int| 0 <= i < next ==> (#[trigger] wanted@[i]).0 != offset,
        decreases wanted@.len() - next,
    {
        if wanted[next].0 == offset {
            return true;
        }
        next += 1;
    }
    false
}

/// Plans a fetch. The candidates are the page asked for and the pages
/// predicted to be asked for next, each with what a read of it at the
/// snapshot found: the sequence number and the page value. The pending
/// ones are to be fetched.
pub fn plan_fetch(candidates: &Vec<(u32, u64, PageValue)>) -> (plan: FetchPlan)
    ensures
        plan.wanted@ == wanted_pages(candidates_view(candidates@)),
        plan.graft@ == bitmap_bytes(wanted_offsets(plan.wanted@).to_set()),
{
    let ghost all = candidates_view(candidates@);
    let mut wanted: Vec<(u32, u64)> = Vec::new();
    let mut offsets: Vec<u32> = Vec::new();
    let mut next: usize = 0;
    while next < candidates.len()
        invariant
            next <= candidates@.len(),
            all == candidates_view(candidates@),
            wanted@ == wanted_pages(all.subrange(0, next as int)),
            offsets@ == wanted_offsets(wanted@),
        decreases candidates@.len() - next,
    {
        let offset = candidates[next].0;
        let lsn = candidates[next].1;
        let pending = match candidates[next].2 {
            PageValue::Pending => true,
            _ => false,
        };
        proof {
            let grown = all.subrange(0, next + 1);
            assert(grown.drop_last() =~= all.subrange(0, next as int));
            assert(grown.last() == (offset, lsn, candidates@[next as int].2@));
        }
        if pending && !is_wanted(&wanted, offset) {
            wanted.push((offset, lsn));
            offsets.push(offset);
            assert(offsets@ =~= wanted_offsets(wanted@));
        }
        next += 1;
    }
    assert(all.subrange(0, candidates@.len() as int) =~= all);
    let graft = encode_offsets(&offsets);
    FetchPlan { graft, wanted }
}

/// Takes in the answer of the remote to a fetch of the `wanted` pages.
/// Returns the page at `requested`, zeros where the remote holds none,
/// and the batch that stores the pages that came. An entry for an offset
/// that was not asked for is passed over. An entry for a wanted offset
/// that has not the length of a page fails the fetch.
pub fn complete_fetch(
    vid: &VolumeId,
    requested: u32,
    wanted: &Vec<(u32, u64)>,
    response: &Vec<(u32, Vec<u8>)>,
) -> (result: Result<(Page, Batch), StorageErr>)
    requires
        wanted_has(wanted@, requested),
    ensures
        match result {
            Ok((page, batch)) => {
                &&& response_fits(response_view(response@), wanted@)
                &&& batch@ == fetched_changes(wanted@, response_view(response@))
                &&& batch.volume() == *vid
                &&& batch.published() is None
                &&& page@ == match fetched_page(response_view(response@), requested) {
                    Some(page) => page,
                    None => zero_page(),
                }
            },
            Err(err) => err == StorageErr::CorruptPage(PageValueErr::InvalidLength)
                && !response_fits(response_view(response@), wanted@),
        },
{
    let ghost answer = response_view(response@);
    let mut checked: usize = 0;
    while checked < response.len()
        invariant
            checked <= response@.len(),
            answer == response_view(response@),
            forall|i: int|
                0 <= i < checked && wanted_has(wanted@, (#[trigger] answer[i]).0)
                    ==> answer[i].1.len() == PAGESIZE,
        decreases response@.len() - checked,
    {
        if is_wanted(wanted, response[checked].0) && response[checked].1.len() != PAGESIZE {
            assert(wanted_has(wanted@, answer[checked as int].0));
            return Err(StorageErr::CorruptPage(PageValueErr::InvalidLength));
        }
        checked += 1;
    }
    let mut batch = Batch::new(*vid);
    let mut requested_page: Option<Page> = None;
    let mut next: usize = 0;
    while next < wanted.len()
        invariant
            next <= wanted@.len(),
            answer == response_view(response@),
            response_fits(answer, wanted@),
            batch@ == fetched_changes(wanted@.subrange(0, next as int), answer),
            batch.volume() == *vid,
            batch.published() is None,
            match requested_page {
                Some(page) => fetched_page(answer, requested) == Some(page@),
                None => fetched_page(answer, requested) is None || !wanted_has(
                    wanted@.subrange(0, next as int),
                    requested,
                ),
            },
        decreases wanted@.len() - next,
    {
        let offset = wanted[next].0;
        let lsn = wanted[next].1;
        proof {
            let grown = wanted@.subrange(0, next + 1);
            assert(grown.drop_last() =~= wanted@.subrange(0, next as int));
            assert(grown.last() == (offset, lsn));
            assert(wanted@[next as int].0 == offset);
            assert(wanted_has(wanted@, offset));
            assert forall|o: u32| wanted_has(grown, o) implies o == offset || wanted_has(
                wanted@.subrange(0, next as int),
                o,
            ) by {
                let i = choose|i: int| 0 <= i < grown.len() && #[trigger] grown[i].0 == o;
                if i < next {
                    assert(wanted@.subrange(0, next as int)[i].0 == o);
                }
            }
        }
        let mut at: usize = response.len();
        let mut found: Option<Page> = None;
        while at > 0 && found.is_none()
            invariant
                at <= response@.len(),
                answer == response_view(response@),
                response_fits(answer, wanted@),
                wanted_has(wanted@, offset),
                match found {
                    Some(page) => fetched_page(answer, offset) == Some(page@),
                    None => forall|i: int|
                        at <= i < response@.len() ==> (#[trigger] answer[i]).0 != offset,
                },
            decreases at, if found is None { 1int } else { 0int },
        {
            at -= 1;
            if response[at].0 == offset {
                proof {
                    lemma_fetched_page_prefix(answer, offset, at + 1);
                    assert(answer.subrange(0, at + 1).last() == answer[at as int]);
                    assert(answer[at as int].1.len() == PAGESIZE);
                }
                found = Page::from_slice(response[at].1.as_slice());
            }
        }
        proof {
            if found is None {
                lemma_fetched_page_prefix(answer, offset, 0);
                assert(answer.subrange(0, 0) =~= Seq::<(u32, Seq<u8>)>::empty());
            }
        }
        match found {
            Some(page) => {
                if offset == requested {
                    requested_page = Some(page.clone());
                }
                batch.push(Write::PutPage { offset, lsn, value: PageValue::Available(page) });
            },
            None => {},
        }
        next += 1;
    }
    assert(wanted@.subrange(0, wanted@.len() as int) =~= wanted@);
    let page = match requested_page {
        Some(page) => page,
        None => Page::empty(),
    };
    Ok((page, batch))
}

} // verus!
