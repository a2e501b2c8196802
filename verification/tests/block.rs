use graft::block::{block_size, Block, BlockRef};

fn mkblock(values: impl IntoIterator<Item = u8>) -> BlockRef {
    let mut buf: Vec<u8> = Vec::new();
    let mut block = Block::default();
    for i in values {
        block.insert(i);
    }
    block.flush(&mut buf);
    assert_eq!(block.cardinality(), 0, "block should reset after flush");
    BlockRef::from_bytes(buf)
}

#[test]
fn test_block_last() {
    // empty block
    assert_eq!(mkblock(0..0).last(), None);
    assert_eq!(mkblock(0..0).last(), None);
    assert_eq!(mkblock(0..0).last(), None);

    // block with 1 element
    assert_eq!(mkblock(0..1).last(), Some(0));
    assert_eq!(mkblock(33..34).last(), Some(33));
    assert_eq!(mkblock(128..129).last(), Some(128));

    // block with 31 elements; stored as a list
    assert_eq!(mkblock(0..31).last(), Some(30));
    assert_eq!(mkblock(1..32).last(), Some(31));
    assert_eq!(mkblock(100..131).last(), Some(130));

    // block with > 32 elements; stored as a bitmap
    assert_eq!(mkblock(0..32).last(), Some(31));
    assert_eq!(mkblock(1..33).last(), Some(32));
    assert_eq!(mkblock(21..131).last(), Some(130));
    assert_eq!(mkblock(0..=255).last(), Some(255));
}

#[test]
fn test_block_rank() {
    // empty block
    assert_eq!(mkblock(0..0).rank(0), 0);
    assert_eq!(mkblock(0..0).rank(128), 0);
    assert_eq!(mkblock(0..0).rank(255), 0);

    // block with 1 element
    assert_eq!(mkblock(0..1).rank(0), 1);
    assert_eq!(mkblock(0..1).rank(128), 1);
    assert_eq!(mkblock(128..129).rank(0), 0);

    // block with 31 elements; stored as a list
    let block = mkblock(0..31);
    assert_eq!(block.cardinality(), 31);
    for i in 0..31 {
        assert_eq!(block.rank(i), (i + 1).into());
    }
    for i in 31..255 {
        assert_eq!(block.rank(i), 31);
    }

    // block with 32 elements; stored as a bitmap
    let block = mkblock(0..32);
    assert_eq!(block.cardinality(), 32);
    for i in 0..32 {
        assert_eq!(block.rank(i), (i + 1).into());
    }
    for i in 32..255 {
        assert_eq!(block.rank(i), 32);
    }

    // full block
    let block = mkblock(0..=255);
    assert_eq!(block.cardinality(), 256);
    for i in 0..255 {
        assert_eq!(block.rank(i), (i + 1).into());
    }
}

#[test]
fn test_block_contains() {
    // empty block
    assert!(!mkblock(0..0).contains(0));
    assert!(!mkblock(0..0).contains(128));
    assert!(!mkblock(0..0).contains(255));

    // block with 1 element
    assert!(mkblock(0..1).contains(0));
    assert!(!mkblock(0..1).contains(128));
    assert!(!mkblock(128..129).contains(0));

    // block with 31 elements; stored as a list
    let block = mkblock(0..31);
    assert_eq!(block.cardinality(), 31);
    for i in 0..31 {
        assert!(block.contains(i));
    }
    for i in 31..255 {
        assert!(!block.contains(i));
    }

    // block with 32 elements; stored as a bitmap
    let block = mkblock(0..32);
    assert_eq!(block.cardinality(), 32);
    for i in 0..32 {
        assert!(block.contains(i));
    }
    for i in 32..255 {
        assert!(!block.contains(i));
    }

    // full block
    let block = mkblock(0..=255);
    assert_eq!(block.cardinality(), 256);
    for i in 0..255 {
        assert!(block.contains(i));
    }
}

#[test]
fn block_size_switches_to_bitmap_at_32() {
    assert_eq!(block_size(0), 0);
    assert_eq!(block_size(31), 31);
    assert_eq!(block_size(32), 32);
    assert_eq!(block_size(256), 32);
}

#[test]
fn flush_writes_list_then_bitmap() {
    let mut out: Vec<u8> = vec![9];
    let mut block = Block::default();
    assert!(block.insert(7));
    assert!(!block.insert(7));
    assert!(block.insert(3));
    assert_eq!(block.flush(&mut out), (2, 2));
    assert_eq!(out, vec![9, 3, 7]);

    let mut out: Vec<u8> = Vec::new();
    for i in 0..40u8 {
        block.insert(i);
    }
    assert_eq!(block.flush(&mut out), (40, 32));
    assert_eq!(&out[..6], &[0xff, 0xff, 0xff, 0xff, 0xff, 0x00]);
    let decoded = BlockRef::from_bytes(out).copy_to_owned();
    assert_eq!(decoded.cardinality(), 40);
    assert_eq!(decoded.last(), Some(39));
}

#[test]
fn from_suffix_takes_the_tail() {
    let data: Vec<u8> = vec![1, 2, 3, 10, 20];
    let block = BlockRef::from_suffix(&data, 2);
    assert_eq!(block.cardinality(), 2);
    assert!(block.contains(10));
    assert!(block.contains(20));
    assert!(!block.contains(3));
}
