//! A segmented, line-granularity bump allocator: fixed-size, self-aligned
//! memory blocks are carved into 128-byte lines, per-line occupancy is
//! tracked in a line map, and allocation requests are served by advancing a
//! cursor through the largest contiguous run of free lines ("hole").

pub mod allocation;
pub mod block;
