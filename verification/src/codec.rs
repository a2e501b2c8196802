//! Fixed-width integer encodings and the byte order of keys.
//!
//! Keys store their numeric fields big-endian, so that comparing keys byte
//! by byte compares the numbers. Values store their fields little-endian.

use vstd::prelude::*;

verus! {

/// 256 to the power `n`.
pub open spec fn pow256(n: nat) -> nat
    decreases n,
{
    if n == 0 {
        1
    } else {
        256 * pow256((n - 1) as nat)
    }
}

/// The `width` low-order base-256 digits of `value`, most significant first.
pub open spec fn be_bytes(value: nat, width: nat) -> Seq<u8>
    decreases width,
{
    if width == 0 {
        Seq::empty()
    } else {
        be_bytes(value / 256, (width - 1) as nat).push((value % 256) as u8)
    }
}

/// The number whose base-256 digits, most significant first, are `bytes`.
pub open spec fn be_value(bytes: Seq<u8>) -> nat
    decreases bytes.len(),
{
    if bytes.len() == 0 {
        0
    } else {
        be_value(bytes.drop_last()) * 256 + bytes.last() as nat
    }
}

/// The `width` low-order base-256 digits of `value`, least significant first.
pub open spec fn le_bytes(value: nat, width: nat) -> Seq<u8>
    decreases width,
{
    if width == 0 {
        Seq::empty()
    } else {
        seq![(value % 256) as u8] + le_bytes(value / 256, (width - 1) as nat)
    }
}

/// The number whose base-256 digits, least significant first, are `bytes`.
pub open spec fn le_value(bytes: Seq<u8>) -> nat
    decreases bytes.len(),
{
    if bytes.len() == 0 {
        0
    } else {
        bytes[0] as nat + 256 * le_value(bytes.subrange(1, bytes.len() as int))
    }
}

/// Whether `a` comes before `b`, or equals it, when byte strings are
/// compared byte by byte and a proper prefix comes first.
pub open spec fn lex_le(a: Seq<u8>, b: Seq<u8>) -> bool
    decreases a.len(),
{
    if a.len() == 0 {
        true
    } else if b.len() == 0 {
        false
    } else if a[0] != b[0] {
        a[0] < b[0]
    } else {
        lex_le(a.subrange(1, a.len() as int), b.subrange(1, b.len() as int))
    }
}

/// The powers of 256 that bound the integers of one, two, four and
/// eight bytes.
pub proof fn lemma_pow256_values()
    ensures
        pow256(0) == 1,
        pow256(1) == 0x100,
        pow256(2) == 0x1_0000,
        pow256(4) == 0x1_0000_0000,
        pow256(8) == 0x1_0000_0000_0000_0000,
{
    reveal_with_fuel(pow256, 9);
}

/// `width` digits are `width` bytes.
pub proof fn lemma_be_bytes_len(value: nat, width: nat)
    ensures
        be_bytes(value, width).len() == width,
    decreases width,
{
    if width > 0 {
        lemma_be_bytes_len(value / 256, (width - 1) as nat);
    }
}

/// `width` digits are `width` bytes.
pub proof fn lemma_le_bytes_len(value: nat, width: nat)
    ensures
        le_bytes(value, width).len() == width,
    decreases width,
{
    if width > 0 {
        lemma_le_bytes_len(value / 256, (width - 1) as nat);
    }
}

/// A number that fits in `width` digits is read back from its big-endian
/// digits.
pub proof fn lemma_be_value_of_bytes(value: nat, width: nat)
    requires
        value < pow256(width),
    ensures
        be_value(be_bytes(value, width)) == value,
    decreases width,
{
    if width > 0 {
        let rest = be_bytes(value / 256, (width - 1) as nat);
        lemma_be_value_of_bytes(value / 256, (width - 1) as nat);
        assert(rest.push((value % 256) as u8).drop_last() =~= rest);
    }
}

/// Big-endian digits are written back from the number they stand for.
pub proof fn lemma_be_bytes_of_value(bytes: Seq<u8>)
    ensures
        be_value(bytes) < pow256(bytes.len()),
        be_bytes(be_value(bytes), bytes.len()) == bytes,
    decreases bytes.len(),
{
    if bytes.len() > 0 {
        let head = bytes.drop_last();
        lemma_be_bytes_of_value(head);
        let value = be_value(bytes);
        assert(value / 256 == be_value(head) && value % 256 == bytes.last() as nat);
        assert(be_bytes(value, bytes.len()) =~= bytes);
    }
}

/// A number that fits in `width` digits is read back from its
/// little-endian digits.
pub proof fn lemma_le_value_of_bytes(value: nat, width: nat)
    requires
        value < pow256(width),
    ensures
        le_value(le_bytes(value, width)) == value,
    decreases width,
{
    if width > 0 {
        let rest = le_bytes(value / 256, (width - 1) as nat);
        let all = le_bytes(value, width);
        lemma_le_value_of_bytes(value / 256, (width - 1) as nat);
        assert(all.subrange(1, all.len() as int) =~= rest);
    }
}

/// Little-endian digits are written back from the number they stand for.
pub proof fn lemma_le_bytes_of_value(bytes: Seq<u8>)
    ensures
        le_value(bytes) < pow256(bytes.len()),
        le_bytes(le_value(bytes), bytes.len()) == bytes,
    decreases bytes.len(),
{
    if bytes.len() > 0 {
        let tail = bytes.subrange(1, bytes.len() as int);
        lemma_le_bytes_of_value(tail);
        let value = le_value(bytes);
        assert(value / 256 == le_value(tail) && value % 256 == bytes[0] as nat);
        assert(le_bytes(value, bytes.len()) =~= bytes);
    }
}

/// Byte strings of one length are ordered byte by byte exactly as the
/// big-endian numbers that they stand for.
pub proof fn lemma_be_order(a: Seq<u8>, b: Seq<u8>)
    requires
        a.len() == b.len(),
    ensures
        lex_le(a, b) <==> be_value(a) <= be_value(b),
        a == b <==> be_value(a) == be_value(b),
    decreases a.len(),
{
    if a.len() == 0 {
        assert(a =~= b);
    } else {
        let n = a.len() as int;
        let a_tail = a.subrange(1, n);
        let b_tail = b.subrange(1, n);
        lemma_be_order(a_tail, b_tail);
        lemma_be_split_first(a);
        lemma_be_split_first(b);
        lemma_be_bytes_of_value(a_tail);
        lemma_be_bytes_of_value(b_tail);
        let scale = pow256((n - 1) as nat);
        let av = be_value(a_tail);
        let bv = be_value(b_tail);
        if a[0] == b[0] {
            if a_tail == b_tail {
                assert forall|i: int| 0 <= i < n implies a[i] == b[i] by {
                    if i > 0 {
                        assert(a[i] == a_tail[i - 1] && b[i] == b_tail[i - 1]);
                    }
                }
                assert(a =~= b);
            }
        } else if a[0] < b[0] {
            assert(a[0] as nat * scale + av < b[0] as nat * scale + bv) by (nonlinear_arith)
                requires
                    a[0] < b[0],
                    av < scale,
                    bv >= 0,
            ;
        } else {
            assert(b[0] as nat * scale + bv < a[0] as nat * scale + av) by (nonlinear_arith)
                requires
                    b[0] < a[0],
                    bv < scale,
                    av >= 0,
            ;
        }
    }
}

/// The big-endian value of a byte string, split at its first byte.
pub proof fn lemma_be_split_first(bytes: Seq<u8>)
    requires
        bytes.len() > 0,
    ensures
        be_value(bytes) == bytes[0] as nat * pow256((bytes.len() - 1) as nat) + be_value(
            bytes.subrange(1, bytes.len() as int),
        ),
    decreases bytes.len(),
{
    let n = bytes.len() as int;
    if n == 1 {
        assert(bytes.drop_last() =~= Seq::<u8>::empty());
        assert(bytes.subrange(1, n) =~= Seq::<u8>::empty());
        assert(be_value(Seq::<u8>::empty()) == 0);
        assert(be_value(bytes) == 0 * 256 + bytes.last() as nat);
        assert(pow256(0) == 1);
    } else {
        let head = bytes.drop_last();
        let tail = bytes.subrange(1, n);
        lemma_be_split_first(head);
        assert(head.subrange(1, n - 1) =~= tail.drop_last());
        assert(tail.last() == bytes.last());
        assert(head[0] == bytes[0]);
        let scale = pow256((n - 2) as nat);
        let first = bytes[0] as nat;
        let mid = be_value(tail.drop_last());
        let low = bytes.last() as nat;
        assert(pow256((n - 1) as nat) == 256 * scale);
        assert(be_value(head) == first * scale + mid);
        assert(be_value(bytes) == be_value(head) * 256 + low);
        assert(be_value(tail) == mid * 256 + low);
        assert((first * scale + mid) * 256 == first * (256 * scale) + mid * 256)
            by (nonlinear_arith);
    }
}

/// Comparing two concatenations whose first parts have one length compares
/// the first parts, and the second parts where the first are equal.
pub proof fn lemma_lex_le_concat(a1: Seq<u8>, a2: Seq<u8>, b1: Seq<u8>, b2: Seq<u8>)
    requires
        a1.len() == b1.len(),
    ensures
        lex_le(a1 + a2, b1 + b2) <==> (if a1 == b1 {
            lex_le(a2, b2)
        } else {
            lex_le(a1, b1)
        }),
    decreases a1.len(),
{
    if a1.len() == 0 {
        assert(a1 =~= b1);
        assert(a1 + a2 =~= a2);
        assert(b1 + b2 =~= b2);
    } else {
        let n = a1.len() as int;
        let a = a1 + a2;
        let b = b1 + b2;
        let a1_tail = a1.subrange(1, n);
        let b1_tail = b1.subrange(1, n);
        assert(a.subrange(1, a.len() as int) =~= a1_tail + a2);
        assert(b.subrange(1, b.len() as int) =~= b1_tail + b2);
        assert(a[0] == a1[0] && b[0] == b1[0]);
        lemma_lex_le_concat(a1_tail, a2, b1_tail, b2);
        if a1[0] == b1[0] {
            if a1_tail == b1_tail {
                assert forall|i: int| 0 <= i < n implies a1[i] == b1[i] by {
                    if i > 0 {
                        assert(a1[i] == a1_tail[i - 1] && b1[i] == b1_tail[i - 1]);
                    }
                }
                assert(a1 =~= b1);
            }
        }
    }
}

/// Appends the `width` low-order digits of `value`, most significant first.
pub fn put_be(out: &mut Vec<u8>, value: u64, width: usize)
    ensures
        final(out)@ == old(out)@ + be_bytes(value as nat, width as nat),
    decreases width,
{
    if width > 0 {
        put_be(out, value / 256, width - 1);
        out.push((value % 256) as u8);
        proof {
            let rest = be_bytes((value / 256) as nat, (width - 1) as nat);
            assert(old(out)@ + rest.push((value % 256) as u8) =~= (old(out)@ + rest).push(
                (value % 256) as u8,
            ));
        }
    } else {
        assert(old(out)@ + Seq::<u8>::empty() =~= old(out)@);
    }
}

/// Appends the `width` low-order digits of `value`, least significant first.
pub fn put_le(out: &mut Vec<u8>, value: u64, width: usize)
    ensures
        final(out)@ == old(out)@ + le_bytes(value as nat, width as nat),
    decreases width,
{
    if width > 0 {
        out.push((value % 256) as u8);
        put_le(out, value / 256, width - 1);
        proof {
            let rest = le_bytes((value / 256) as nat, (width - 1) as nat);
            assert(old(out)@.push((value % 256) as u8) + rest =~= old(out)@ + (seq![
                (value % 256) as u8,
            ] + rest));
        }
    } else {
        assert(old(out)@ + Seq::<u8>::empty() =~= old(out)@);
    }
}

/// Reads the big-endian number held in `width` bytes from `start`.
pub fn get_be(bytes: &[u8], start: usize, width: usize) -> (value: u64)
    requires
        width <= 8,
        start + width <= bytes@.len(),
    ensures
        value == be_value(bytes@.subrange(start as int, start + width)),
{
    let total = bytes.len();
    let mut value: u64 = 0;
    let mut read: usize = 0;
    proof {
        lemma_pow256_values();
        assert(bytes@.subrange(start as int, start as int) =~= Seq::<u8>::empty());
    }
    while read < width
        invariant
            read <= width <= 8,
            start + width <= bytes@.len() == total,
            value == be_value(bytes@.subrange(start as int, start + read)),
            value < pow256(read as nat),
        decreases width - read,
    {
        let digit = bytes[start + read];
        proof {
            let grown = bytes@.subrange(start as int, start + read + 1);
            assert(grown.drop_last() =~= bytes@.subrange(start as int, start + read));
            assert(grown.last() == digit);
            lemma_be_bytes_of_value(grown);
            lemma_pow256_bound((read + 1) as nat);
        }
        value = value * 256 + digit as u64;
        read += 1;
    }
    value
}

/// Reads the little-endian number held in `width` bytes from `start`.
pub fn get_le(bytes: &[u8], start: usize, width: usize) -> (value: u64)
    requires
        width <= 8,
        start + width <= bytes@.len(),
    ensures
        value == le_value(bytes@.subrange(start as int, start + width)),
{
    let total = bytes.len();
    let mut value: u64 = 0;
    let mut left: usize = width;
    proof {
        lemma_pow256_values();
        assert(bytes@.subrange(start + width, start + width) =~= Seq::<u8>::empty());
    }
    while left > 0
        invariant
            left <= width <= 8,
            start + width <= bytes@.len() == total,
            value == le_value(bytes@.subrange(start + left, start + width)),
            value < pow256((width - left) as nat),
        decreases left,
    {
        let digit = bytes[start + left - 1];
        proof {
            let grown = bytes@.subrange(start + left - 1, start + width);
            assert(grown.subrange(1, grown.len() as int) =~= bytes@.subrange(
                start + left,
                start + width,
            ));
            assert(grown[0] == digit);
            lemma_le_bytes_of_value(grown);
            lemma_pow256_bound((width - left + 1) as nat);
        }
        value = value * 256 + digit as u64;
        left -= 1;
    }
    value
}

/// Up to eight digits stay within 64 bits.
pub proof fn lemma_pow256_bound(n: nat)
    requires
        n <= 8,
    ensures
        pow256(n) <= 0x1_0000_0000_0000_0000,
{
    reveal_with_fuel(pow256, 9);
}

} // verus!
