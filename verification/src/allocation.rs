//! The line map and the bump allocator.

use crate::block::{is_pow2, AllocError, Block};
use vstd::prelude::*;
use vstd::arithmetic::div_mod::{lemma_fundamental_div_mod, lemma_mod_multiples_basic};

verus! {

/// Bytes in one block: 32 KiB.
pub const BLOCK_SIZE: usize = 32768;

/// Bytes in one line: the granularity at which occupancy is tracked.
pub const LINE_SIZE: usize = 128;

/// Lines in one block.
pub const LINE_COUNT: usize = BLOCK_SIZE / LINE_SIZE;

/// One left-to-right pass of the hole search over the occupancy map `lines`
/// (`true` means occupied), looking at line `i` with the state accumulated so
/// far: `start` is the hole's first line once one has been chosen, and
/// `in_run` says whether the current run of free lines already had a line.
/// The first free line of a run is conservatively skipped as a hole start —
/// it may be partially used by an allocation that began before it — unless it
/// is line 0 of the block. The result is the hole as a half-open line range:
/// the run from `start` up to the next occupied line or the end of the map.
pub open spec fn scan(lines: Seq<bool>, i: int, start: Option<int>, in_run: bool) -> Option<
    (int, int),
>
    decreases lines.len() - i,
{
    if i < 0 || i >= lines.len() {
        match start {
            Some(a) => Some((a, lines.len() as int)),
            None => None,
        }
    } else if lines[i] {
        match start {
            Some(a) => Some((a, i)),
            None => scan(lines, i + 1, None, false),
        }
    } else if !in_run && i > 0 {
        scan(lines, i + 1, start, true)
    } else if start is None {
        scan(lines, i + 1, Some(i), true)
    } else {
        scan(lines, i + 1, start, true)
    }
}

/// The hole search's result on `lines` from byte offset `start_at_loc`, as a
/// half-open byte range.
pub open spec fn find_hole_spec(lines: Seq<bool>, start_at_loc: int) -> Option<(int, int)> {
    match scan(lines, start_at_loc / (LINE_SIZE as int), None, false) {
        Some(h) => Some((h.0 * (LINE_SIZE as int), h.1 * (LINE_SIZE as int))),
        None => None,
    }
}

/// What the scan returns is a run of free lines: it lies within the map,
/// starts no earlier than the scan position (or at the already chosen start),
/// and is bounded on the right by an occupied line or the end of the map.
pub proof fn lemma_scan_props(lines: Seq<bool>, i: int, start: Option<int>, in_run: bool)
    requires
        0 <= i <= lines.len(),
        match start {
            Some(a) => 0 <= a < i && forall|k: int| a <= k < i ==> !lines[k],
            None => true,
        },
    ensures
        match scan(lines, i, start, in_run) {
            Some(h) => {
                &&& match start {
                    Some(a) => h.0 == a,
                    None => i <= h.0,
                }
                &&& h.0 < h.1 <= lines.len()
                &&& i <= h.1
                &&& forall|k: int| h.0 <= k < h.1 ==> !lines[k]
                &&& (h.1 == lines.len() || lines[h.1])
            },
            None => start is None,
        },
    decreases lines.len() - i,
{
    if i >= lines.len() {
    } else if lines[i] {
        match start {
            Some(a) => {},
            None => {
                lemma_scan_props(lines, i + 1, None, false);
            },
        }
    } else if !in_run && i > 0 {
        lemma_scan_props(lines, i + 1, start, true);
    } else if start is None {
        lemma_scan_props(lines, i + 1, Some(i), true);
    } else {
        lemma_scan_props(lines, i + 1, start, true);
    }
}

/// A hole found from a line-aligned byte offset begins at or after that
/// offset, ends strictly past it, stays within the block, and both of its
/// ends are line-aligned.
pub proof fn lemma_find_hole_props(lines: Seq<bool>, start_at_loc: int)
    requires
        lines.len() == LINE_COUNT,
        0 <= start_at_loc <= BLOCK_SIZE,
        start_at_loc % (LINE_SIZE as int) == 0,
    ensures
        match find_hole_spec(lines, start_at_loc) {
            Some(h) => {
                &&& start_at_loc <= h.0
                &&& h.0 + LINE_SIZE <= h.1
                &&& h.1 <= BLOCK_SIZE
                &&& h.0 % (LINE_SIZE as int) == 0
                &&& h.1 % (LINE_SIZE as int) == 0
            },
            None => true,
        },
{
    let s = start_at_loc / (LINE_SIZE as int);
    lemma_fundamental_div_mod(start_at_loc, LINE_SIZE as int);
    lemma_scan_props(lines, s, None, false);
    match scan(lines, s, None, false) {
        Some(h) => {
            lemma_mod_multiples_basic(h.0, LINE_SIZE as int);
            lemma_mod_multiples_basic(h.1, LINE_SIZE as int);
        },
        None => {},
    }
}

/// Per-block metadata: one occupancy flag per line — written by an external
/// collaborator such as a tracing collector, only read here — plus one
/// whole-block mark reserved for a future collection phase.
pub struct BlockMeta {
    line: Vec<bool>,
    black_mark: bool,
}

impl View for BlockMeta {
    type V = Seq<bool>;

    /// The occupancy flags, in line order; `true` means occupied.
    closed spec fn view(&self) -> Seq<bool> {
        self.line@
    }
}

impl BlockMeta {
    /// The map holds one flag for each line of the block.
    pub closed spec fn wf(&self) -> bool {
        self@.len() == LINE_COUNT
    }

    /// The whole-block mark.
    pub closed spec fn marked(&self) -> bool {
        self.black_mark
    }

    /// A map with every line free and the mark clear.
    pub fn new() -> (r: BlockMeta)
        ensures
            r.wf(),
            r@.len() == LINE_COUNT,
            forall|i: int| 0 <= i < LINE_COUNT ==> !r@[i],
            !r.marked(),
    {
        let mut line: Vec<bool> = Vec::new();
        let mut i: usize = 0;
        while i < LINE_COUNT
            invariant
                i <= LINE_COUNT,
                line@.len() == i,
                forall|j: int| 0 <= j < i ==> !line@[j],
            decreases LINE_COUNT - i,
        {
            line.push(false);
            i += 1;
        }
        BlockMeta { line, black_mark: false }
    }

    /// Records whether line `idx` is occupied, on behalf of the external
    /// collaborator that traces live data.
    pub fn set_line(&mut self, idx: usize, full: bool)
        requires
            old(self).wf(),
            idx < LINE_COUNT,
        ensures
            final(self).wf(),
            final(self)@ == old(self)@.update(idx as int, full),
            final(self).marked() == old(self).marked(),
    {
        self.line[idx] = full;
    }

    /// Whether line `idx` is occupied.
    pub fn line_full(&self, idx: usize) -> (r: bool)
        requires
            self.wf(),
            idx < LINE_COUNT,
        ensures
            r == self@[idx as int],
    {
        self.line[idx]
    }

    /// Sets the whole-block mark; the allocator itself never reads it.
    pub fn set_mark(&mut self, value: bool)
        ensures
            final(self)@ == old(self)@,
            final(self).marked() == value,
    {
        self.black_mark = value;
    }

    /// The whole-block mark.
    pub fn mark(&self) -> (r: bool)
        ensures
            r == self.marked(),
    {
        self.black_mark
    }

    /// Finds the next hole — a contiguous run of free lines — at or after
    /// byte offset `start_at_loc`, as a half-open byte range, or `None` when
    /// no hole remains there. The first free line of each run past line 0 is
    /// conservatively skipped as a hole start: it may be the tail of an
    /// allocation that is still live.
    pub fn find_available_hole(&self, start_at_loc: usize) -> (r: Option<(usize, usize)>)
        requires
            self.wf(),
            start_at_loc <= BLOCK_SIZE,
        ensures
            match r {
                Some(h) => find_hole_spec(self@, start_at_loc as int) == Some(
                    (h.0 as int, h.1 as int),
                ),
                None => find_hole_spec(self@, start_at_loc as int) is None,
            },
    {
        let start_at_line = start_at_loc / LINE_SIZE;
        let mut idx: usize = start_at_line;
        let mut start: Option<usize> = None;
        let mut in_run: bool = false;
        while idx < LINE_COUNT
            invariant
                self.wf(),
                start_at_line == start_at_loc / LINE_SIZE,
                idx <= LINE_COUNT,
                match start {
                    Some(a) => a < idx,
                    None => true,
                },
                scan(self@, start_at_line as int, None, false) == scan(
                    self@,
                    idx as int,
                    match start {
                        Some(a) => Some(a as int),
                        None => None,
                    },
                    in_run,
                ),
            decreases LINE_COUNT - idx,
        {
            let full_line = self.line[idx];
            if full_line {
                if let Some(a) = start {
                    return Some((a * LINE_SIZE, idx * LINE_SIZE));
                }
                in_run = false;
            } else if !in_run && idx > 0 {
                in_run = true;
            } else {
                if start.is_none() {
                    start = Some(idx);
                }
                in_run = true;
            }
            idx += 1;
        }
        if let Some(a) = start {
            return Some((a * LINE_SIZE, LINE_COUNT * LINE_SIZE));
        }
        None
    }
}

/// The bump allocator's transition on one request: from occupancy `lines`,
/// cursor `cursor` and hole limit `limit`, asking for `size` bytes yields the
/// new cursor, the new limit, and the byte offset of the allocation within
/// the block — `None` when the block is exhausted. A request that does not
/// fit the current hole adopts the next hole found from `limit` and retries;
/// every adopted hole ends strictly past the previous limit, so the chain is
/// finite. A request larger than the whole block is exhaustion at once.
pub open spec fn alloc_spec(lines: Seq<bool>, cursor: int, limit: int, size: int) -> (
    int,
    int,
    Option<int>,
)
    decreases BLOCK_SIZE - limit
        when lines.len() == LINE_COUNT && 0 <= cursor && 0 <= limit <= BLOCK_SIZE && limit % (
        LINE_SIZE as int) == 0
        via alloc_spec_decreases
{
    if size > BLOCK_SIZE {
        (cursor, limit, None::<int>)
    } else if cursor + size <= limit {
        (cursor + size, limit, Some(cursor))
    } else if limit < BLOCK_SIZE {
        match find_hole_spec(lines, limit) {
            Some(h) => alloc_spec(lines, h.0, h.1, size),
            None => (cursor, limit, None::<int>),
        }
    } else {
        (cursor, limit, None::<int>)
    }
}

#[via_fn]
proof fn alloc_spec_decreases(lines: Seq<bool>, cursor: int, limit: int, size: int) {
    if size <= BLOCK_SIZE && cursor + size > limit && limit < BLOCK_SIZE {
        lemma_find_hole_props(lines, limit);
    }
}

/// A bump allocator over one raw block: requests are served from the current
/// hole `[cursor, limit)`, and the line map is re-scanned for the next hole
/// when the current one is exhausted.
pub struct BumpBlock {
    cursor: usize,
    limit: usize,
    block: Block,
    meta: BlockMeta,
}

impl BumpBlock {
    /// The byte offset of the next free byte of the current hole.
    pub closed spec fn cursor_spec(&self) -> usize {
        self.cursor
    }

    /// The byte offset one past the end of the current hole.
    pub closed spec fn limit_spec(&self) -> usize {
        self.limit
    }

    /// The occupancy flags of the owned line map.
    pub closed spec fn lines(&self) -> Seq<bool> {
        self.meta@
    }

    /// The aligned base address of the owned block.
    pub closed spec fn base(&self) -> usize {
        self.block.addr_spec()
    }

    /// The block is well-formed and of the configured size, the line map
    /// covers it, and the hole `[cursor, limit)` lies within the block with a
    /// line-aligned limit.
    pub closed spec fn wf(&self) -> bool {
        &&& self.block.wf()
        &&& self.block.size_spec() == BLOCK_SIZE
        &&& self.meta.wf()
        &&& self.cursor <= self.limit <= BLOCK_SIZE
        &&& self.limit as int % (LINE_SIZE as int) == 0
    }

    /// A bump allocator over a freshly acquired, fully free block; no hole is
    /// known yet, so the cursor and the limit both start at 0.
    pub fn new() -> (r: Result<BumpBlock, AllocError>)
        ensures
            match r {
                Ok(b) => {
                    &&& b.wf()
                    &&& b.cursor_spec() == 0
                    &&& b.limit_spec() == 0
                    &&& b.lines().len() == LINE_COUNT
                    &&& forall|i: int| 0 <= i < LINE_COUNT ==> !b.lines()[i]
                },
                Err(e) => e == AllocError::OutOfMemory,
            },
    {
        proof {
            lemma_block_size_pow2();
        }
        match Block::new(BLOCK_SIZE) {
            Ok(block) => Ok(BumpBlock { cursor: 0, limit: 0, block, meta: BlockMeta::new() }),
            Err(e) => Err(e),
        }
    }

    /// Records whether line `idx` of the owned block is occupied, on behalf
    /// of the external collaborator that traces live data; the allocator
    /// itself only reads the flags.
    pub fn set_line(&mut self, idx: usize, full: bool)
        requires
            old(self).wf(),
            idx < LINE_COUNT,
        ensures
            final(self).wf(),
            final(self).lines() == old(self).lines().update(idx as int, full),
            final(self).cursor_spec() == old(self).cursor_spec(),
            final(self).limit_spec() == old(self).limit_spec(),
            final(self).base() == old(self).base(),
    {
        self.meta.set_line(idx, full);
    }

    /// Serves a request for `alloc_size` contiguous bytes: bumps the cursor
    /// when the request fits the current hole, otherwise adopts the next hole
    /// from the line map and retries. Returns the address of the first byte
    /// of the allocation, or `None` when the block is exhausted. The line map
    /// is only read, never written.
    pub fn inner_alloc(&mut self, alloc_size: usize) -> (r: Option<usize>)
        requires
            old(self).wf(),
        ensures
            final(self).wf(),
            final(self).lines() == old(self).lines(),
            final(self).base() == old(self).base(),
            ({
                let step = alloc_spec(
                    old(self).lines(),
                    old(self).cursor_spec() as int,
                    old(self).limit_spec() as int,
                    alloc_size as int,
                );
                &&& final(self).cursor_spec() == step.0
                &&& final(self).limit_spec() == step.1
                &&& match (r, step.2) {
                    (Some(addr), Some(off)) => addr == old(self).base() + off,
                    (None, None) => true,
                    _ => false,
                }
            }),
            alloc_size > BLOCK_SIZE ==> r is None,
            r matches Some(addr) ==> {
                &&& old(self).cursor_spec() <= final(self).cursor_spec()
                &&& alloc_size <= final(self).cursor_spec()
                &&& addr == old(self).base() + final(self).cursor_spec() - alloc_size
            },
    {
        let ghost first = *self;
        if alloc_size > BLOCK_SIZE {
            return None;
        }
        proof {
            lemma_alloc_spec_props(
                first.lines(),
                first.cursor_spec() as int,
                first.limit_spec() as int,
                alloc_size as int,
            );
        }
        loop
            invariant
                first == *old(self),
                self.wf(),
                self.block == first.block,
                self.meta == first.meta,
                alloc_size <= BLOCK_SIZE,
                first.cursor_spec() <= self.cursor,
                alloc_spec(
                    first.lines(),
                    first.cursor_spec() as int,
                    first.limit_spec() as int,
                    alloc_size as int,
                ) == alloc_spec(
                    self.meta@,
                    self.cursor as int,
                    self.limit as int,
                    alloc_size as int,
                ),
            decreases BLOCK_SIZE - self.limit,
        {
            let next_bump = self.cursor + alloc_size;
            if next_bump <= self.limit {
                let offset = self.cursor;
                self.cursor = next_bump;
                return Some(self.block.as_ptr() + offset);
            }
            if self.limit >= BLOCK_SIZE {
                return None;
            }
            match self.meta.find_available_hole(self.limit) {
                Some(h) => {
                    proof {
                        lemma_find_hole_props(self.meta@, self.limit as int);
                    }
                    self.cursor = h.0;
                    self.limit = h.1;
                },
                None => {
                    return None;
                },
            }
        }
    }
}

/// The block's size is a power of two.
proof fn lemma_block_size_pow2()
    ensures
        is_pow2(BLOCK_SIZE as int),
{
    reveal_with_fuel(is_pow2, 17);
}

/// Every allocation the transition hands out starts at or after the cursor
/// it began with, ends at the new cursor, and fits the adopted hole; the
/// limit never moves backwards and stays line-aligned within the block.
pub proof fn lemma_alloc_spec_props(lines: Seq<bool>, cursor: int, limit: int, size: int)
    requires
        lines.len() == LINE_COUNT,
        0 <= cursor <= limit <= BLOCK_SIZE,
        limit % (LINE_SIZE as int) == 0,
        0 <= size,
    ensures
        ({
            let step = alloc_spec(lines, cursor, limit, size);
            &&& cursor <= step.0 <= step.1
            &&& limit <= step.1 <= BLOCK_SIZE
            &&& step.1 % (LINE_SIZE as int) == 0
            &&& match step.2 {
                Some(off) => cursor <= off && step.0 == off + size,
                None => true,
            }
        }),
    decreases BLOCK_SIZE - limit,
{
    if size > BLOCK_SIZE {
    } else if cursor + size <= limit {
    } else if limit < BLOCK_SIZE {
        lemma_find_hole_props(lines, limit);
        match find_hole_spec(lines, limit) {
            Some(h) => {
                lemma_alloc_spec_props(lines, h.0, h.1, size);
            },
            None => {},
        }
    } else {
    }
}

/// Two consecutive successful allocations hand out strictly increasing,
/// non-overlapping byte ranges: the second offset lies at or past the end of
/// the first range.
pub proof fn lemma_allocations_ordered(
    lines: Seq<bool>,
    cursor: int,
    limit: int,
    size1: int,
    size2: int,
)
    requires
        lines.len() == LINE_COUNT,
        0 <= cursor <= limit <= BLOCK_SIZE,
        limit % (LINE_SIZE as int) == 0,
        0 <= size1,
        0 <= size2,
    ensures
        ({
            let step1 = alloc_spec(lines, cursor, limit, size1);
            let step2 = alloc_spec(lines, step1.0, step1.1, size2);
            match (step1.2, step2.2) {
                (Some(off1), Some(off2)) => off1 + size1 <= off2,
                _ => true,
            }
        }),
{
    lemma_alloc_spec_props(lines, cursor, limit, size1);
    let step1 = alloc_spec(lines, cursor, limit, size1);
    lemma_alloc_spec_props(lines, step1.0, step1.1, size2);
}

/// Once the cursor and the limit both stand at the end of the block, every
/// further request reports exhaustion and moves nothing.
pub proof fn lemma_full_block_exhausted(lines: Seq<bool>, size: int)
    requires
        lines.len() == LINE_COUNT,
        1 <= size,
    ensures
        alloc_spec(lines, BLOCK_SIZE as int, BLOCK_SIZE as int, size) == (
            BLOCK_SIZE as int,
            BLOCK_SIZE as int,
            None::<int>,
        ),
{
}

/// A fully free line map yields exactly one hole, spanning the whole block.
pub proof fn lemma_fresh_map_one_hole(lines: Seq<bool>)
    requires
        lines.len() == LINE_COUNT,
        forall|i: int| 0 <= i < lines.len() ==> !lines[i],
    ensures
        find_hole_spec(lines, 0) == Some((0int, BLOCK_SIZE as int)),
{
    lemma_scan_all_free(lines, 1, 0);
}

/// Once a start is chosen and every remaining line is free, the scan runs to
/// the end of the map.
proof fn lemma_scan_all_free(lines: Seq<bool>, i: int, a: int)
    requires
        0 <= a < i <= lines.len(),
        forall|k: int| i <= k < lines.len() ==> !lines[k],
    ensures
        scan(lines, i, Some(a), true) == Some((a, lines.len() as int)),
    decreases lines.len() - i,
{
    if i < lines.len() {
        lemma_scan_all_free(lines, i + 1, a);
    }
}

} // verus!
