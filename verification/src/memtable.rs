//! The pages that a write transaction has written and not yet committed.

use vstd::prelude::*;

use crate::page::Page;

verus! {

/// Whether the rows are ordered by strictly increasing offset.
pub open spec fn rows_sorted(rows: Seq<(u32, Seq<u8>)>) -> bool {
    forall|i: int, j: int| 0 <= i < j < rows.len() ==> rows[i].0 < rows[j].0
}

/// Whether some row is at `offset`.
pub open spec fn rows_have(rows: Seq<(u32, Seq<u8>)>, offset: u32) -> bool {
    exists|i: int| 0 <= i < rows.len() && #[trigger] rows[i].0 == offset
}

/// The page of each offset that has a row.
pub open spec fn rows_map(rows: Seq<(u32, Seq<u8>)>) -> Map<u32, Seq<u8>> {
    Map::new(
        |offset: u32| rows_have(rows, offset),
        |offset: u32| rows[choose|i: int| 0 <= i < rows.len() && #[trigger] rows[i].0 == offset].1,
    )
}

/// The offsets of the rows, in their order.
pub open spec fn rows_offsets(rows: Seq<(u32, Seq<u8>)>) -> Seq<u32> {
    Seq::new(rows.len(), |i: int| rows[i].0)
}

/// Number of rows at the front whose offset is smaller than `offset`:
/// where, in sorted rows, a row at `offset` is or would be.
pub open spec fn rows_position(rows: Seq<(u32, Seq<u8>)>, offset: u32) -> int
    decreases rows.len(),
{
    if rows.len() == 0 || rows[0].0 >= offset {
        0
    } else {
        1 + rows_position(rows.subrange(1, rows.len() as int), offset)
    }
}

/// The rows after `page` was written at `offset`: in place of the row at
/// that offset, or as a new row where the order of the offsets puts it.
pub open spec fn rows_inserted(rows: Seq<(u32, Seq<u8>)>, offset: u32, page: Seq<u8>) -> Seq<
    (u32, Seq<u8>),
> {
    let index = rows_position(rows, offset);
    if index < rows.len() && rows[index].0 == offset {
        rows.update(index, (offset, page))
    } else {
        rows.insert(index, (offset, page))
    }
}

/// The position of an offset is the index that splits the rows into the
/// smaller offsets and the others.
pub proof fn lemma_rows_position(rows: Seq<(u32, Seq<u8>)>, offset: u32, index: int)
    requires
        0 <= index <= rows.len(),
        forall|i: int| 0 <= i < index ==> (#[trigger] rows[i]).0 < offset,
        index < rows.len() ==> rows[index].0 >= offset,
    ensures
        rows_position(rows, offset) == index,
    decreases index,
{
    if index > 0 {
        let tail = rows.subrange(1, rows.len() as int);
        assert(rows[0].0 < offset);
        assert forall|i: int| 0 <= i < index - 1 implies (#[trigger] tail[i]).0 < offset by {
            assert(rows[i + 1].0 < offset);
        }
        lemma_rows_position(tail, offset, index - 1);
    }
}

/// In sorted rows, the row at index `i` is the one that the map holds for
/// its offset.
pub proof fn lemma_rows_map(rows: Seq<(u32, Seq<u8>)>, i: int)
    requires
        rows_sorted(rows),
        0 <= i < rows.len(),
    ensures
        rows_map(rows).contains_key(rows[i].0),
        rows_map(rows)[rows[i].0] == rows[i].1,
{
    let offset = rows[i].0;
    let j = choose|j: int| 0 <= j < rows.len() && #[trigger] rows[j].0 == offset;
    if j < i {
        assert(rows[j].0 < rows[i].0);
    } else if i < j {
        assert(rows[i].0 < rows[j].0);
    }
}

/// An in-memory table of written pages, ordered by offset. A later write
/// to an offset replaces the earlier one.
pub struct Memtable {
    entries: Vec<(u32, Page)>,
}

impl View for Memtable {
    type V = Map<u32, Seq<u8>>;

    /// The page written at each offset.
    closed spec fn view(&self) -> Map<u32, Seq<u8>> {
        rows_map(self.rows())
    }
}

impl Memtable {
    /// The written pages, in the order of their offsets.
    pub closed spec fn rows(&self) -> Seq<(u32, Seq<u8>)> {
        Seq::new(self.entries@.len(), |i: int| (self.entries@[i].0, self.entries@[i].1@))
    }

    /// Whether the rows are in the order of their offsets, one per offset.
    /// Every table made by `new` and `insert` is.
    pub open spec fn wf(&self) -> bool {
        rows_sorted(self.rows())
    }

    /// A table without pages.
    pub fn new() -> (table: Memtable)
        ensures
            table.rows() == Seq::<(u32, Seq<u8>)>::empty(),
            table@ == Map::<u32, Seq<u8>>::empty(),
            table.wf(),
    {
        let table = Memtable { entries: Vec::new() };
        proof {
            assert(table.rows() =~= Seq::<(u32, Seq<u8>)>::empty());
            assert(table@ =~= Map::<u32, Seq<u8>>::empty());
        }
        table
    }

    /// Number of offsets with a written page.
    pub fn len(&self) -> (len: usize)
        ensures
            len == self.rows().len(),
            self@ == rows_map(self.rows()),
    {
        self.entries.len()
    }

    /// Whether no page was written.
    pub fn is_empty(&self) -> (empty: bool)
        ensures
            empty == (self.rows().len() == 0),
    {
        self.entries.len() == 0
    }

    /// The offset of the row at `index`.
    pub fn offset_at(&self, index: usize) -> (offset: u32)
        requires
            index < self.rows().len(),
        ensures
            offset == self.rows()[index as int].0,
    {
        self.entries[index].0
    }

    /// The page of the row at `index`.
    pub fn page_at(&self, index: usize) -> (page: &Page)
        requires
            index < self.rows().len(),
        ensures
            page@ == self.rows()[index as int].1,
    {
        &self.entries[index].1
    }

    /// The largest offset with a written page.
    pub fn last_offset(&self) -> (offset: Option<u32>)
        requires
            self.wf(),
        ensures
            offset is Some <==> self.rows().len() > 0,
            offset matches Some(o) ==> o == self.rows().last().0 && forall|i: int|
                0 <= i < self.rows().len() ==> (#[trigger] self.rows()[i]).0 <= o,
    {
        let len = self.entries.len();
        if len == 0 {
            None
        } else {
            proof {
                assert forall|i: int| 0 <= i < self.rows().len() implies (
                #[trigger] self.rows()[i]).0 <= self.rows()[len - 1].0 by {
                    if i < len - 1 {
                        assert(self.rows()[i].0 < self.rows()[len - 1].0);
                    }
                }
            }
            Some(self.entries[len - 1].0)
        }
    }

    /// Number of rows whose offset is smaller than `offset`: where a row
    /// at `offset` is, or would be.
    fn position(&self, offset: u32) -> (index: usize)
        requires
            self.wf(),
        ensures
            index <= self.rows().len(),
            forall|i: int| 0 <= i < index ==> (#[trigger] self.rows()[i]).0 < offset,
            forall|i: int| index <= i < self.rows().len() ==> (#[trigger] self.rows()[i]).0 >= offset,
    {
        let mut index: usize = 0;
        while index < self.entries.len() && self.entries[index].0 < offset
            invariant
                index <= self.entries@.len(),
                self.entries@.len() == self.rows().len(),
                forall|i: int| 0 <= i < index ==> (#[trigger] self.rows()[i]).0 < offset,
            decreases self.entries@.len() - index,
        {
            index += 1;
        }
        proof {
            if index < self.entries@.len() {
                assert(self.rows()[index as int].0 >= offset);
                assert forall|i: int| index <= i < self.rows().len() implies (
                #[trigger] self.rows()[i]).0 >= offset by {
                    if index < i {
                        assert(self.rows()[index as int].0 < self.rows()[i].0);
                    }
                }
            }
        }
        index
    }

    /// The page written at `offset`, if one was.
    pub fn get(&self, offset: u32) -> (page: Option<&Page>)
        requires
            self.wf(),
        ensures
            page is Some <==> self@.contains_key(offset),
            page matches Some(p) ==> p@ == self@[offset],
    {
        let index = self.position(offset);
        if index < self.entries.len() && self.entries[index].0 == offset {
            proof {
                assert(self.rows()[index as int].0 == offset);
                lemma_rows_map(self.rows(), index as int);
            }
            Some(&self.entries[index].1)
        } else {
            proof {
                if rows_have(self.rows(), offset) {
                    let i = choose|i: int|
                        0 <= i < self.rows().len() && #[trigger] self.rows()[i].0 == offset;
                    if i < index {
                        assert(self.rows()[i].0 < offset);
                    } else if i > index {
                        assert(self.rows()[index as int].0 < self.rows()[i].0);
                    }
                }
            }
            None
        }
    }

    /// Writes `page` at `offset`, in place of what was written there.
    pub fn insert(&mut self, offset: u32, page: Page)
        requires
            old(self).wf(),
        ensures
            final(self).rows() == rows_inserted(old(self).rows(), offset, page@),
            final(self)@ == old(self)@.insert(offset, page@),
            final(self).wf(),
    {
        let ghost before = self.rows();
        let ghost content = page@;
        let index = self.position(offset);
        proof {
            lemma_rows_position(before, offset, index as int);
        }
        if index < self.entries.len() && self.entries[index].0 == offset {
            self.entries.set(index, (offset, page));
            proof {
                let after = self.rows();
                assert(after =~= before.update(index as int, (offset, content)));
                assert forall|i: int, j: int| 0 <= i < j < after.len() implies after[i].0
                    < after[j].0 by {
                    assert(before[i].0 < before[j].0);
                }
            }
        } else {
            self.entries.insert(index, (offset, page));
            proof {
                let after = self.rows();
                assert(after =~= before.insert(index as int, (offset, content)));
                assert forall|i: int, j: int| 0 <= i < j < after.len() implies after[i].0
                    < after[j].0 by {
                    let bi = if i < index { i } else { i - 1 };
                    let bj = if j < index { j } else { j - 1 };
                    if i != index && j != index {
                        assert(before[bi].0 < before[bj].0);
                    } else if i == index {
                        assert(before[bj].0 >= offset);
                        assert(before[index as int].0 > offset);
                        if bj > index {
                            assert(before[index as int].0 < before[bj].0);
                        }
                    } else {
                        assert(before[bi].0 < offset);
                    }
                }
            }
        }
        proof {
            let after = self.rows();
            assert(after[index as int] == (offset, content));
            assert(rows_sorted(after));
            assert forall|o: u32| rows_have(after, o) <==> (o == offset || rows_have(
                before,
                o,
            )) by {
                if rows_have(after, o) && o != offset {
                    let i = choose|i: int| 0 <= i < after.len() && #[trigger] after[i].0 == o;
                    if after.len() == before.len() {
                        assert(before[i].0 == o);
                    } else if i < index {
                        assert(before[i].0 == o);
                    } else {
                        assert(before[i - 1].0 == o);
                    }
                }
                if rows_have(before, o) && o != offset {
                    let i = choose|i: int| 0 <= i < before.len() && #[trigger] before[i].0 == o;
                    if after.len() == before.len() {
                        assert(after[i].0 == o);
                    } else if i < index {
                        assert(after[i].0 == o);
                    } else {
                        assert(after[i + 1].0 == o);
                    }
                }
                if o == offset {
                    assert(after[index as int].0 == o);
                }
            }
            assert forall|o: u32| rows_have(after, o) implies #[trigger] rows_map(after)[o]
                == old(self)@.insert(offset, content)[o] by {
                let i = choose|i: int| 0 <= i < after.len() && #[trigger] after[i].0 == o;
                lemma_rows_map(after, i);
                if o != offset {
                    let bi = if after.len() == before.len() || i < index { i } else { i - 1 };
                    assert(before[bi] == after[i]);
                    lemma_rows_map(before, bi);
                }
            }
            assert(self@ =~= old(self)@.insert(offset, content));
        }
    }
}

impl Default for Memtable {
    fn default() -> (table: Memtable)
        ensures
            table@ == Map::<u32, Seq<u8>>::empty(),
            table.wf(),
    {
        Memtable::new()
    }
}

} // verus!
