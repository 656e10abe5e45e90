use sm_rs::allocation::{BlockMeta, BumpBlock, BLOCK_SIZE, LINE_COUNT, LINE_SIZE};
use sm_rs::block::{AllocError, Block};
use std::mem::size_of;

fn poly_alloc<T>() {
    let size = size_of::<T>() * 2;
    let mask = size - 1;

    let block = Block::new(size);
    match block {
        Ok(b) => {
            let p = b.as_ptr();
            assert!((p & mask) ^ mask == mask)
        }
        _ => panic!(),
    }
}

#[test]
fn multi_size_alloc() {
    poly_alloc::<u8>();
    poly_alloc::<u16>();
    poly_alloc::<u32>();
    poly_alloc::<u64>();
}

#[test]
fn invalid_sizes_are_rejected() {
    for size in [0usize, 3, 5, 6, 7, 9, 12, 33, 100, 1000, 4097] {
        assert!(matches!(Block::new(size), Err(AllocError::InvalidSize)));
    }
}

#[test]
fn acquired_blocks_are_self_aligned() {
    for shift in 0..15 {
        let size = 1usize << shift;
        let b = Block::new(size).unwrap();
        assert_eq!(b.as_ptr() % size, 0);
    }
}

#[test]
fn out_of_memory_on_unrepresentable_size() {
    let size = 1usize << (usize::BITS - 1);
    assert!(matches!(Block::new(size), Err(AllocError::OutOfMemory)));
}

#[test]
fn acquire_release_round_trip() {
    for shift in 0..17 {
        let size = 1usize << shift;
        let mut b = Block::new(size).unwrap();
        b.write_byte(0, 0xa5);
        b.write_byte(size - 1, 0x5a);
        if size > 1 {
            assert_eq!(b.read_byte(0), 0xa5);
        }
        assert_eq!(b.read_byte(size - 1), 0x5a);
        drop(b);
        // A second acquisition of the same size must work just as well.
        let b2 = Block::new(size).unwrap();
        assert_eq!(b2.as_ptr() % size, 0);
    }
}

#[test]
fn byte_access_round_trip() {
    let mut b = Block::new(256).unwrap();
    b.write_byte(10, 1);
    b.write_byte(11, 2);
    b.write_byte(10, 3);
    assert_eq!(b.read_byte(10), 3);
    assert_eq!(b.read_byte(11), 2);
}

#[test]
fn fresh_block_single_hole() {
    let meta = BlockMeta::new();
    assert_eq!(meta.find_available_hole(0), Some((0, BLOCK_SIZE)));
}

#[test]
fn hole_skips_first_free_line_after_occupied() {
    // Line 0 occupied, all others free: line 1 is the first free line of the
    // run and is conservatively skipped as a start, so the hole begins at
    // line 2.
    let mut meta = BlockMeta::new();
    meta.set_line(0, true);
    assert_eq!(meta.find_available_hole(0), Some((2 * LINE_SIZE, BLOCK_SIZE)));
}

#[test]
fn golden_hole_after_two_occupied_lines() {
    // Lines 0 and 1 occupied (bytes 0..256): line 2 is skipped as a start,
    // line 3 becomes the hole's first line, so the hole is (384, 32768).
    let mut meta = BlockMeta::new();
    meta.set_line(0, true);
    meta.set_line(1, true);
    assert_eq!(meta.find_available_hole(0), Some((384, 32768)));
    assert_eq!(meta.find_available_hole(0), Some((3 * LINE_SIZE, BLOCK_SIZE)));
}

#[test]
fn hole_search_mid_block() {
    let mut meta = BlockMeta::new();
    for idx in 10..20 {
        meta.set_line(idx, true);
    }
    // From the block's start: lines 0..10 are one hole, and line 0 may be a
    // start because it is the very first line of the block.
    assert_eq!(meta.find_available_hole(0), Some((0, 10 * LINE_SIZE)));
    // From the end of that hole: lines 10..20 are occupied, line 20 is
    // skipped as a start, line 21 opens the hole that runs to the block end.
    assert_eq!(
        meta.find_available_hole(10 * LINE_SIZE),
        Some((21 * LINE_SIZE, BLOCK_SIZE))
    );
    // Searching from inside the occupied run gives the same hole.
    assert_eq!(
        meta.find_available_hole(15 * LINE_SIZE),
        Some((21 * LINE_SIZE, BLOCK_SIZE))
    );
}

#[test]
fn hole_bounded_by_occupied_line() {
    // Only line 0 free: it may start a hole, bounded by occupied line 1.
    let mut meta = BlockMeta::new();
    for idx in 1..LINE_COUNT {
        meta.set_line(idx, true);
    }
    assert_eq!(meta.find_available_hole(0), Some((0, LINE_SIZE)));
}

#[test]
fn no_hole_in_full_block() {
    let mut meta = BlockMeta::new();
    for idx in 0..LINE_COUNT {
        meta.set_line(idx, true);
    }
    assert_eq!(meta.find_available_hole(0), None);
    // A single trailing free line past line 0 is skipped as a start, so it
    // yields no hole either.
    meta.set_line(LINE_COUNT - 1, false);
    assert_eq!(meta.find_available_hole(0), None);
    // Searching at the very end of the block finds nothing.
    let fresh = BlockMeta::new();
    assert_eq!(fresh.find_available_hole(BLOCK_SIZE), None);
}

#[test]
fn line_map_records_occupancy_and_mark() {
    let mut meta = BlockMeta::new();
    assert!(!meta.line_full(0));
    assert!(!meta.mark());
    meta.set_line(7, true);
    assert!(meta.line_full(7));
    assert!(!meta.line_full(8));
    meta.set_line(7, false);
    assert!(!meta.line_full(7));
    meta.set_mark(true);
    assert!(meta.mark());
}

#[test]
fn tiling_allocations_fill_then_exhaust() {
    let mut bump = BumpBlock::new().unwrap();
    let base = bump.inner_alloc(LINE_SIZE).unwrap();
    assert_eq!(base % LINE_SIZE, 0);
    let mut prev = base;
    for i in 1..LINE_COUNT {
        let addr = bump.inner_alloc(LINE_SIZE).unwrap();
        // Strictly increasing, adjacent, non-overlapping ranges.
        assert_eq!(addr, prev + LINE_SIZE);
        assert_eq!(addr, base + i * LINE_SIZE);
        prev = addr;
    }
    // The block is full: the next request reports exhaustion.
    assert_eq!(bump.inner_alloc(LINE_SIZE), None);
    assert_eq!(bump.inner_alloc(1), None);
}

#[test]
fn oversize_request_reports_exhaustion() {
    let mut bump = BumpBlock::new().unwrap();
    assert_eq!(bump.inner_alloc(BLOCK_SIZE + 1), None);
    assert_eq!(bump.inner_alloc(usize::MAX), None);
    // The failed oversize requests left the block untouched: a request for
    // the whole block still succeeds.
    let addr = bump.inner_alloc(BLOCK_SIZE).unwrap();
    assert_eq!(addr % BLOCK_SIZE, 0);
    assert_eq!(bump.inner_alloc(1), None);
}

#[test]
fn bump_allocations_are_contiguous() {
    let mut bump = BumpBlock::new().unwrap();
    let first = bump.inner_alloc(100).unwrap();
    let second = bump.inner_alloc(100).unwrap();
    let third = bump.inner_alloc(50).unwrap();
    assert_eq!(second, first + 100);
    assert_eq!(third, second + 100);
}

#[test]
fn bump_skips_occupied_lines() {
    // Lines 0 and 1 occupied: the first hole starts at byte 384 (line 3,
    // line 2 being conservatively skipped), so the first allocation lands
    // there.
    let mut bump = BumpBlock::new().unwrap();
    bump.set_line(0, true);
    bump.set_line(1, true);
    let first = bump.inner_alloc(LINE_SIZE).unwrap();
    let full = bump.inner_alloc(BLOCK_SIZE).unwrap_or(usize::MAX);
    // The remaining hole cannot hold a whole block any more.
    assert_eq!(full, usize::MAX);
    let second = bump.inner_alloc(LINE_SIZE).unwrap();
    assert_eq!(second, first + LINE_SIZE);
}
