//! Blocks: sets of byte-sized segments.
//!
//! A block is the leaf of the offset bitmap. In memory a [`Block`] is a
//! 256-bit bitmap. Encoded, a block with fewer than 32 members is the
//! ascending list of its members, one byte each; any other block is the
//! 32 bitmap bytes. The encoded length alone tells the two forms apart.

use vstd::prelude::*;

verus! {

/// Number of bytes in the bitmap form of a block.
pub const BITMAP_SIZE: usize = 32;

/// Whether bit `k` of `byte` is set; bit 0 is the least significant.
pub open spec fn bit_set(byte: u8, k: int) -> bool {
    0 <= k < 8 && (byte >> (k as u8)) & 1u8 == 1u8
}

/// Whether the bitmap bytes mark `segment` as a member.
pub open spec fn bitmap_has(bitmap: Seq<u8>, segment: int) -> bool {
    0 <= segment < 8 * bitmap.len() && bit_set(bitmap[segment / 8], segment % 8)
}

/// The set of segments that 32 bitmap bytes encode.
pub open spec fn bitmap_set(bitmap: Seq<u8>) -> Set<u8> {
    Set::new(|s: u8| bitmap_has(bitmap, s as int))
}

/// The members of `set` that are smaller than `n`.
pub open spec fn below(set: Set<u8>, n: int) -> Set<u8> {
    Set::new(|s: u8| set.contains(s) && (s as int) < n)
}

/// The members of `set` that are smaller than `n`, in ascending order.
pub open spec fn ascending(set: Set<u8>, n: int) -> Seq<u8>
    decreases n,
{
    if n <= 0 {
        Seq::empty()
    } else if set.contains((n - 1) as u8) {
        ascending(set, n - 1).push((n - 1) as u8)
    } else {
        ascending(set, n - 1)
    }
}

/// Whether `list` is strictly increasing.
pub open spec fn strictly_increasing(list: Seq<u8>) -> bool {
    forall|i: int, j: int| 0 <= i < j < list.len() ==> list[i] < list[j]
}

/// The largest member of `set`, if it has one.
pub open spec fn is_largest(set: Set<u8>, largest: Option<u8>) -> bool {
    match largest {
        Some(m) => set.contains(m) && forall|s: u8| set.contains(s) ==> s <= m,
        None => forall|s: u8| !set.contains(s),
    }
}

/// The set that an encoded block stands for.
pub open spec fn decoded_set(segments: Seq<u8>) -> Set<u8> {
    if segments.len() == BITMAP_SIZE {
        bitmap_set(segments)
    } else {
        segments.to_set()
    }
}

/// The encoding of a block: the ascending list while the set has fewer
/// members than the bitmap has bytes, the bitmap otherwise.
pub open spec fn encoded_block(bitmap: Seq<u8>) -> Seq<u8> {
    if bitmap_set(bitmap).len() < BITMAP_SIZE {
        ascending(bitmap_set(bitmap), 256)
    } else {
        bitmap
    }
}

/// Raising the bound of a prefix by one adds the bound, where it is a
/// member, and nothing else.
pub proof fn lemma_below_step(set: Set<u8>, n: int)
    requires
        0 <= n < 256,
    ensures
        !below(set, n).contains(n as u8),
        set.contains(n as u8) ==> below(set, n + 1) == below(set, n).insert(n as u8),
        !set.contains(n as u8) ==> below(set, n + 1) == below(set, n),
{
    if set.contains(n as u8) {
        assert(below(set, n + 1) =~= below(set, n).insert(n as u8));
    } else {
        assert(below(set, n + 1) =~= below(set, n));
    }
}

/// Every prefix of a set of bytes is finite and no larger than its bound.
pub proof fn lemma_below_finite(set: Set<u8>, n: int)
    requires
        0 <= n <= 256,
    ensures
        below(set, n).finite(),
        below(set, n).len() <= n,
        n == 256 ==> below(set, n) == set,
    decreases n,
{
    if n == 0 {
        assert(below(set, 0) =~= Set::empty());
    } else {
        lemma_below_finite(set, n - 1);
        lemma_below_step(set, n - 1);
    }
    if n == 256 {
        assert(below(set, n) =~= set);
    }
}

/// The ascending list of a prefix lists exactly that prefix, without
/// repetition and in order.
pub proof fn lemma_ascending(set: Set<u8>, n: int)
    requires
        0 <= n <= 256,
    ensures
        strictly_increasing(ascending(set, n)),
        ascending(set, n).to_set() == below(set, n),
        ascending(set, n).len() == below(set, n).len(),
        ascending(set, n).no_duplicates(),
        forall|i: int| 0 <= i < ascending(set, n).len() ==> (#[trigger] ascending(set, n)[i] as int) < n,
    decreases n,
{
    if n == 0 {
        assert(below(set, 0) =~= Set::empty());
        assert(ascending(set, n).to_set() =~= below(set, n));
    } else {
        lemma_ascending(set, n - 1);
        lemma_below_step(set, n - 1);
        lemma_below_finite(set, n - 1);
        let prev = ascending(set, n - 1);
        if set.contains((n - 1) as u8) {
            let cur = prev.push((n - 1) as u8);
            assert(cur.to_set() =~= prev.to_set().insert((n - 1) as u8)) by {
                assert forall|s: u8| cur.to_set().contains(s) implies prev.to_set().insert(
                    (n - 1) as u8,
                ).contains(s) by {
                    let i = choose|i: int| 0 <= i < cur.len() && cur[i] == s;
                    if i < prev.len() {
                        assert(prev[i] == s);
                    }
                }
                assert forall|s: u8| prev.to_set().insert((n - 1) as u8).contains(
                    s,
                ) implies cur.to_set().contains(s) by {
                    if s == (n - 1) as u8 {
                        assert(cur[prev.len() as int] == s);
                    } else {
                        let i = choose|i: int| 0 <= i < prev.len() && prev[i] == s;
                        assert(cur[i] == s);
                    }
                }
            }
        }
    }
}

/// A strictly increasing list has as many entries as the set it lists.
pub proof fn lemma_increasing_list_len(list: Seq<u8>)
    requires
        strictly_increasing(list),
    ensures
        list.no_duplicates(),
        list.to_set().finite(),
        list.to_set().len() == list.len(),
{
    list.unique_seq_to_set();
    lemma_below_finite(list.to_set(), 256);
}

/// In a strictly increasing list whose first `k` entries are the ones not
/// above `position`, those entries are the members not above `position`.
pub proof fn lemma_increasing_list_rank(list: Seq<u8>, position: u8, k: int)
    requires
        strictly_increasing(list),
        0 <= k <= list.len(),
        forall|i: int| 0 <= i < k ==> list[i] <= position,
        forall|i: int| k <= i < list.len() ==> list[i] > position,
    ensures
        below(list.to_set(), position + 1).len() == k,
{
    let head = list.subrange(0, k);
    assert(strictly_increasing(head));
    lemma_increasing_list_len(head);
    assert(head.to_set() =~= below(list.to_set(), position + 1)) by {
        assert forall|s: u8| head.to_set().contains(s) implies below(
            list.to_set(),
            position + 1,
        ).contains(s) by {
            let i = choose|i: int| 0 <= i < head.len() && head[i] == s;
            assert(list[i] == s);
        }
        assert forall|s: u8| below(list.to_set(), position + 1).contains(
            s,
        ) implies head.to_set().contains(s) by {
            let i = choose|i: int| 0 <= i < list.len() && list[i] == s;
            assert(i < k);
            assert(head[i] == s);
        }
    }
}

/// Encoded size of a block that holds `cardinality` segments: one byte per
/// segment while the list is shorter than the bitmap, the bitmap otherwise.
pub fn block_size(cardinality: usize) -> (size: usize)
    ensures
        size == if cardinality < BITMAP_SIZE { cardinality } else { BITMAP_SIZE },
{
    if cardinality < BITMAP_SIZE {
        cardinality
    } else {
        BITMAP_SIZE
    }
}

/// Tests one bit of a bitmap.
pub fn bitmap_contains(bitmap: &[u8], segment: u8) -> (found: bool)
    requires
        bitmap@.len() == BITMAP_SIZE,
    ensures
        found == bitmap_set(bitmap@).contains(segment),
{
    let byte = bitmap[(segment / 8) as usize];
    (byte >> (segment % 8)) & 1 == 1
}

/// Counts the members of a bitmap that are not above `position`.
pub fn bitmap_rank(bitmap: &[u8], position: u8) -> (rank: usize)
    requires
        bitmap@.len() == BITMAP_SIZE,
    ensures
        rank == below(bitmap_set(bitmap@), position + 1).len(),
        rank <= position + 1,
{
    let ghost set = bitmap_set(bitmap@);
    let mut rank: usize = 0;
    let mut segment: u8 = 0;
    proof {
        lemma_below_finite(set, 0);
    }
    while segment < position
        invariant
            bitmap@.len() == BITMAP_SIZE,
            set == bitmap_set(bitmap@),
            segment <= position,
            rank == below(set, segment as int).len(),
            rank <= segment,
        decreases position - segment,
    {
        proof {
            lemma_below_step(set, segment as int);
            lemma_below_finite(set, segment as int);
        }
        if bitmap_contains(bitmap, segment) {
            rank += 1;
        }
        segment += 1;
    }
    proof {
        lemma_below_step(set, position as int);
        lemma_below_finite(set, position as int);
    }
    if bitmap_contains(bitmap, position) {
        rank += 1;
    }
    rank
}

/// Counts the members of a bitmap.
pub fn bitmap_cardinality(bitmap: &[u8]) -> (cardinality: usize)
    requires
        bitmap@.len() == BITMAP_SIZE,
    ensures
        bitmap_set(bitmap@).finite(),
        cardinality == bitmap_set(bitmap@).len(),
        cardinality <= 256,
{
    proof {
        lemma_below_finite(bitmap_set(bitmap@), 256);
    }
    bitmap_rank(bitmap, 255)
}

/// Finds the largest member of a bitmap.
pub fn bitmap_last(bitmap: &[u8]) -> (last: Option<u8>)
    requires
        bitmap@.len() == BITMAP_SIZE,
    ensures
        is_largest(bitmap_set(bitmap@), last),
{
    let ghost set = bitmap_set(bitmap@);
    let mut segment: u8 = 255;
    loop
        invariant
            bitmap@.len() == BITMAP_SIZE,
            set == bitmap_set(bitmap@),
            forall|s: u8| set.contains(s) ==> s <= segment,
        decreases segment,
    {
        if bitmap_contains(bitmap, segment) {
            return Some(segment);
        }
        if segment == 0 {
            return None;
        }
        segment -= 1;
    }
}

/// A set of segments held as a 256-bit bitmap.
#[derive(Clone, Copy, Debug)]
pub struct Block {
    bitmap: [u8; 32],
}

impl View for Block {
    type V = Set<u8>;

    closed spec fn view(&self) -> Set<u8> {
        bitmap_set(self.bitmap@)
    }
}

impl Default for Block {
    fn default() -> (block: Block)
        ensures
            block@ == Set::<u8>::empty(),
    {
        let block = Block { bitmap: [0u8; 32] };
        proof {
            assert forall|s: u8| !bitmap_has(block.bitmap@, s as int) by {
                let byte = block.bitmap@[(s as int) / 8];
                let k = ((s as int) % 8) as u8;
                assert(byte == 0u8);
                assert((0u8 >> k) & 1u8 != 1u8) by (bit_vector);
            }
            assert(block@ =~= Set::<u8>::empty());
        }
        block
    }
}

impl Block {
    /// The bitmap bytes of the block.
    pub closed spec fn bitmap_bytes(&self) -> Seq<u8> {
        self.bitmap@
    }

    /// Wraps 32 bitmap bytes.
    pub fn from_bitmap(bitmap: [u8; 32]) -> (block: Block)
        ensures
            block@ == bitmap_set(bitmap@),
            block.bitmap_bytes() == bitmap@,
    {
        Block { bitmap }
    }

    /// The bitmap bytes of the block.
    pub fn as_bitmap(&self) -> (bitmap: &[u8; 32])
        ensures
            bitmap@ == self.bitmap_bytes(),
            bitmap_set(bitmap@) == self@,
    {
        &self.bitmap
    }

    /// Adds `segment` to the block; tells whether it was absent before.
    pub fn insert(&mut self, segment: u8) -> (added: bool)
        ensures
            final(self)@ == old(self)@.insert(segment),
            added == !old(self)@.contains(segment),
    {
        let index = (segment / 8) as usize;
        let k = segment % 8;
        let byte = self.bitmap[index];
        let added = (byte >> k) & 1 != 1;
        let updated = byte | (1u8 << k);
        let ghost before = self.bitmap@;
        self.bitmap[index] = updated;
        proof {
            let after = self.bitmap@;
            assert forall|j: u8| j < 8 implies (((updated >> j) & 1u8 == 1u8) <==> (j == k || (byte
                >> j) & 1u8 == 1u8)) by {
                assert(k < 8 && j < 8 && updated == byte | (1u8 << k) ==> (((updated >> j) & 1u8
                    == 1u8) <==> (j == k || (byte >> j) & 1u8 == 1u8))) by (bit_vector);
            }
            assert forall|s: u8| bitmap_has(after, s as int) <==> (s == segment || bitmap_has(
                before,
                s as int,
            )) by {
                let j = ((s as int) % 8) as u8;
                if (s as int) / 8 == index as int {
                    assert(after[(s as int) / 8] == updated);
                    assert(before[(s as int) / 8] == byte);
                    assert(j < 8);
                    assert(s == segment <==> j == k);
                } else {
                    assert(after[(s as int) / 8] == before[(s as int) / 8]);
                }
            }
            assert(self@ =~= old(self)@.insert(segment));
        }
        added
    }

    /// Whether `segment` is in the block.
    pub fn contains(&self, segment: u8) -> (found: bool)
        ensures
            found == self@.contains(segment),
    {
        bitmap_contains(vstd::array::array_as_slice(&self.bitmap), segment)
    }

    /// Number of segments in the block.
    pub fn cardinality(&self) -> (cardinality: usize)
        ensures
            self@.finite(),
            cardinality == self@.len(),
    {
        bitmap_cardinality(vstd::array::array_as_slice(&self.bitmap))
    }

    /// The largest segment in the block.
    pub fn last(&self) -> (last: Option<u8>)
        ensures
            is_largest(self@, last),
    {
        bitmap_last(vstd::array::array_as_slice(&self.bitmap))
    }

    /// Number of segments in the block that are not above `position`.
    pub fn rank(&self, position: u8) -> (rank: usize)
        ensures
            rank == below(self@, position + 1).len(),
    {
        bitmap_rank(vstd::array::array_as_slice(&self.bitmap), position)
    }

    /// Appends the encoding of the block to `out` and empties the block.
    /// Returns the block's cardinality and the number of bytes written.
    pub fn flush(&mut self, out: &mut Vec<u8>) -> (written: (usize, usize))
        ensures
            final(self)@ == Set::<u8>::empty(),
            written.0 == old(self)@.len(),
            written.1 == encoded_block(old(self).bitmap_bytes()).len(),
            final(out)@ == old(out)@ + encoded_block(old(self).bitmap_bytes()),
            decoded_set(encoded_block(old(self).bitmap_bytes())) == old(self)@,
    {
        let ghost set = self@;
        let ghost start = out@;
        let cardinality = self.cardinality();
        proof {
            lemma_encoding_round_trip(self.bitmap@);
        }
        let bytes_written = if cardinality < BITMAP_SIZE {
            let mut next: usize = 0;
            while next < 256
                invariant
                    next <= 256,
                    set == bitmap_set(self.bitmap@),
                    out@ == start + ascending(set, next as int),
                decreases 256 - next,
            {
                let segment = next as u8;
                if self.contains(segment) {
                    out.push(segment);
                }
                proof {
                    assert(ascending(set, next + 1) == if set.contains(segment) {
                        ascending(set, next as int).push(segment)
                    } else {
                        ascending(set, next as int)
                    });
                    if set.contains(segment) {
                        assert(start + ascending(set, next as int).push(segment) =~= (start
                            + ascending(set, next as int)).push(segment));
                    }
                }
                next += 1;
            }
            proof {
                lemma_ascending(set, 256);
                lemma_below_finite(set, 256);
            }
            cardinality
        } else {
            let mut next: usize = 0;
            while next < BITMAP_SIZE
                invariant
                    next <= BITMAP_SIZE,
                    out@ == start + self.bitmap@.subrange(0, next as int),
                decreases BITMAP_SIZE - next,
            {
                out.push(self.bitmap[next]);
                proof {
                    assert(self.bitmap@.subrange(0, next + 1) =~= self.bitmap@.subrange(
                        0,
                        next as int,
                    ).push(self.bitmap@[next as int]));
                    assert(start + self.bitmap@.subrange(0, next as int).push(
                        self.bitmap@[next as int],
                    ) =~= (start + self.bitmap@.subrange(0, next as int)).push(
                        self.bitmap@[next as int],
                    ));
                }
                next += 1;
            }
            proof {
                assert(self.bitmap@.subrange(0, BITMAP_SIZE as int) =~= self.bitmap@);
            }
            BITMAP_SIZE
        };
        let cleared = Block::default();
        self.bitmap = cleared.bitmap;
        (cardinality, bytes_written)
    }
}

/// Decoding the encoding of a bitmap gives back the set of the bitmap.
pub proof fn lemma_encoding_round_trip(bitmap: Seq<u8>)
    requires
        bitmap.len() == BITMAP_SIZE,
    ensures
        decoded_set(encoded_block(bitmap)) == bitmap_set(bitmap),
        encoded_block(bitmap).len() <= BITMAP_SIZE,
        encoded_block(bitmap).len() < BITMAP_SIZE ==> strictly_increasing(encoded_block(bitmap)),
{
    let set = bitmap_set(bitmap);
    lemma_ascending(set, 256);
    lemma_below_finite(set, 256);
}

/// An encoded block: either 32 bitmap bytes, or a shorter ascending list
/// of segments.
#[derive(Clone, Debug)]
pub struct BlockRef {
    segments: Vec<u8>,
}

impl View for BlockRef {
    type V = Set<u8>;

    closed spec fn view(&self) -> Set<u8> {
        decoded_set(self.segments@)
    }
}

impl BlockRef {
    /// The encoded bytes.
    pub closed spec fn bytes(&self) -> Seq<u8> {
        self.segments@
    }

    /// Whether the block is in canonical form: a bitmap, or a strictly
    /// increasing list shorter than a bitmap.
    pub open spec fn wf(&self) -> bool {
        self.bytes().len() == BITMAP_SIZE || (self.bytes().len() < BITMAP_SIZE
            && strictly_increasing(self.bytes()))
    }

    /// Whether the block is held in bitmap form.
    pub open spec fn is_bitmap(&self) -> bool {
        self.bytes().len() == BITMAP_SIZE
    }

    /// Takes the encoded bytes of one block.
    pub fn from_bytes(segments: Vec<u8>) -> (block: BlockRef)
        requires
            segments@.len() <= BITMAP_SIZE,
        ensures
            block.bytes() == segments@,
            block@ == decoded_set(segments@),
    {
        BlockRef { segments }
    }

    /// Takes the block of `cardinality` segments that ends `data`.
    pub fn from_suffix(data: &[u8], cardinality: usize) -> (block: BlockRef)
        requires
            data@.len() >= if cardinality < BITMAP_SIZE {
                cardinality
            } else {
                BITMAP_SIZE
            },
        ensures
            block.bytes() == data@.subrange(
                data@.len() - if cardinality < BITMAP_SIZE {
                    cardinality as int
                } else {
                    BITMAP_SIZE as int
                },
                data@.len() as int,
            ),
    {
        let size = block_size(cardinality);
        let start = data.len() - size;
        let mut segments: Vec<u8> = Vec::new();
        let mut next: usize = start;
        while next < data.len()
            invariant
                start <= next <= data@.len(),
                segments@ == data@.subrange(start as int, next as int),
            decreases data@.len() - next,
        {
            segments.push(data[next]);
            proof {
                assert(data@.subrange(start as int, next + 1) =~= data@.subrange(
                    start as int,
                    next as int,
                ).push(data@[next as int]));
            }
            next += 1;
        }
        BlockRef::from_bytes(segments)
    }

    /// The bitmap bytes, if the block is held in bitmap form.
    pub fn bitmap(&self) -> (bitmap: Option<&[u8]>)
        ensures
            bitmap is Some <==> self.is_bitmap(),
            bitmap matches Some(b) ==> b@ == self.bytes(),
    {
        if self.segments.len() == BITMAP_SIZE {
            Some(self.segments.as_slice())
        } else {
            None
        }
    }

    /// Number of segments in the block.
    pub fn cardinality(&self) -> (cardinality: usize)
        ensures
            cardinality == if self.is_bitmap() {
                self@.len()
            } else {
                self.bytes().len()
            },
            self.wf() ==> cardinality == self@.len(),
    {
        proof {
            if self.wf() && !self.is_bitmap() {
                lemma_increasing_list_len(self.segments@);
            }
        }
        match self.bitmap() {
            Some(bitmap) => bitmap_cardinality(bitmap),
            None => self.segments.len(),
        }
    }

    /// The last segment of the block: the largest member of a bitmap, the
    /// final entry of a list.
    pub fn last(&self) -> (last: Option<u8>)
        ensures
            self.is_bitmap() ==> is_largest(self@, last),
            !self.is_bitmap() ==> last == if self.bytes().len() == 0 {
                None
            } else {
                Some(self.bytes().last())
            },
            self.wf() ==> is_largest(self@, last),
    {
        match self.bitmap() {
            Some(bitmap) => bitmap_last(bitmap),
            None => {
                let len = self.segments.len();
                if len == 0 {
                    None
                } else {
                    let last = self.segments[len - 1];
                    proof {
                        if self.wf() {
                            assert forall|s: u8| self@.contains(s) implies s <= last by {
                                let i = choose|i: int|
                                    0 <= i < self.segments@.len() && self.segments@[i] == s;
                                if i < len - 1 {
                                    assert(self.segments@[i] < self.segments@[len - 1]);
                                }
                            }
                            assert(self.segments@[len - 1] == last);
                        }
                    }
                    Some(last)
                }
            },
        }
    }

    /// Number of segments in the block that are not above `position`.
    /// A list is searched by bisection, so the count is exact for blocks in
    /// canonical form.
    pub fn rank(&self, position: u8) -> (rank: usize)
        ensures
            self.wf() ==> rank == below(self@, position + 1).len(),
            rank <= self.bytes().len() || self.is_bitmap(),
    {
        match self.bitmap() {
            Some(bitmap) => bitmap_rank(bitmap, position),
            None => {
                let mut low: usize = 0;
                let mut high: usize = self.segments.len();
                while low < high
                    invariant
                        low <= high <= self.segments@.len(),
                        self.wf() ==> forall|i: int| 0 <= i < low ==> self.segments@[i] <= position,
                        self.wf() ==> forall|i: int|
                            high <= i < self.segments@.len() ==> self.segments@[i] > position,
                        !self.is_bitmap(),
                    decreases high - low,
                {
                    let mid = low + (high - low) / 2;
                    if self.segments[mid] <= position {
                        low = mid + 1;
                    } else {
                        high = mid;
                    }
                }
                proof {
                    if self.wf() {
                        lemma_increasing_list_rank(self.segments@, position, low as int);
                    }
                }
                low
            },
        }
    }

    /// Whether `segment` is in the block.
    pub fn contains(&self, segment: u8) -> (found: bool)
        ensures
            found == self@.contains(segment),
    {
        match self.bitmap() {
            Some(bitmap) => bitmap_contains(bitmap, segment),
            None => {
                let mut next: usize = 0;
                while next < self.segments.len()
                    invariant
                        next <= self.segments@.len(),
                        forall|i: int| 0 <= i < next ==> self.segments@[i] != segment,
                        !self.is_bitmap(),
                    decreases self.segments@.len() - next,
                {
                    if self.segments[next] == segment {
                        return true;
                    }
                    next += 1;
                }
                false
            },
        }
    }

    /// Decodes the block into bitmap form.
    pub fn copy_to_owned(&self) -> (block: Block)
        requires
            self.bytes().len() <= BITMAP_SIZE,
        ensures
            block@ == self@,
    {
        let mut block = Block::default();
        if self.segments.len() == BITMAP_SIZE {
            let mut next: usize = 0;
            while next < BITMAP_SIZE
                invariant
                    next <= BITMAP_SIZE,
                    self.segments@.len() == BITMAP_SIZE,
                    block.bitmap@.len() == BITMAP_SIZE,
                    forall|i: int| 0 <= i < next ==> block.bitmap@[i] == self.segments@[i],
                decreases BITMAP_SIZE - next,
            {
                block.bitmap[next] = self.segments[next];
                next += 1;
            }
            proof {
                assert(block.bitmap@ =~= self.segments@);
            }
        } else {
            let mut next: usize = 0;
            while next < self.segments.len()
                invariant
                    next <= self.segments@.len(),
                    block@ == self.segments@.subrange(0, next as int).to_set(),
                decreases self.segments@.len() - next,
            {
                let ghost head = self.segments@.subrange(0, next as int);
                let segment = self.segments[next];
                block.insert(segment);
                proof {
                    let grown = self.segments@.subrange(0, next + 1);
                    assert(grown =~= head.push(segment));
                    assert(grown.to_set() =~= head.to_set().insert(segment)) by {
                        assert forall|s: u8| grown.to_set().contains(s) implies head.to_set().insert(
                            segment,
                        ).contains(s) by {
                            let i = choose|i: int| 0 <= i < grown.len() && grown[i] == s;
                            if i < head.len() {
                                assert(head[i] == s);
                            }
                        }
                        assert forall|s: u8| head.to_set().insert(segment).contains(
                            s,
                        ) implies grown.to_set().contains(s) by {
                            if s == segment {
                                assert(grown[head.len() as int] == s);
                            } else {
                                let i = choose|i: int| 0 <= i < head.len() && head[i] == s;
                                assert(grown[i] == s);
                            }
                        }
                    }
                }
                next += 1;
            }
            proof {
                assert(self.segments@.subrange(0, self.segments@.len() as int) =~= self.segments@);
            }
        }
        block
    }
}

} // verus!
