//! The raw block: one region of process memory of a power-of-two size,
//! self-aligned (the address handed out is a multiple of the size).

use vstd::prelude::*;
use vstd::arithmetic::div_mod::{lemma_fundamental_div_mod, lemma_mod_multiples_basic};
use vstd::arithmetic::mul::{lemma_mul_is_commutative, lemma_mul_is_distributive_add};

verus! {

/// Why acquiring a block can fail.
#[derive(Clone, Copy, Debug, PartialEq, Eq, Structural)]
pub enum AllocError {
    /// The requested size is not a power of two.
    InvalidSize,
    /// The process could not obtain the memory.
    OutOfMemory,
}

/// `n` is a power of two.
pub open spec fn is_pow2(n: int) -> bool
    decreases n,
{
    if n <= 0 {
        false
    } else if n == 1 {
        true
    } else {
        n % 2 == 0 && is_pow2(n / 2)
    }
}

/// Power-of-two test by repeated halving until an odd number remains.
pub fn is_power_of_two(size: usize) -> (r: bool)
    ensures
        r == is_pow2(size as int),
{
    if size == 0 {
        return false;
    }
    let mut n: usize = size;
    while n % 2 == 0
        invariant
            1 <= n <= size,
            is_pow2(size as int) == is_pow2(n as int),
        decreases n,
    {
        n = n / 2;
    }
    n == 1
}

/// The distance from `base` up to the next multiple of `size` is a pad of
/// less than `size` bytes, and `base` plus that pad is `size`-aligned.
proof fn lemma_align_up(base: int, size: int)
    requires
        size > 0,
    ensures
        (base + (if base % size == 0 {
            0int
        } else {
            size - base % size
        })) % size == 0,
{
    let q = base / size;
    let r = base % size;
    lemma_fundamental_div_mod(base, size);
    if r == 0 {
        lemma_mul_is_commutative(size, q);
        lemma_mod_multiples_basic(q, size);
    } else {
        lemma_mul_is_distributive_add(size, q, 1);
        assert(base + (size - r) == size * (q + 1));
        lemma_mul_is_commutative(size, q + 1);
        lemma_mod_multiples_basic(q + 1, size);
    }
}

/// Relies on `Vec::as_ptr`: the vector's buffer occupies `v.len()`
/// consecutive bytes of the address space starting at the returned address,
/// and a Rust allocation never wraps around the address space, so the end of
/// the buffer is still representable as an address.
#[verifier::external_body]
fn buffer_addr(v: &Vec<u8>) -> (r: usize)
    ensures
        r + v@.len() <= usize::MAX,
{
    v.as_ptr() as usize
}

/// A fixed-size region of process memory. The region is self-aligned: the
/// address of its first byte is a multiple of its size. Releasing the memory
/// happens exactly once, when the owning `Block` is dropped; Rust's move
/// semantics rule out a second release or use after release.
pub struct Block {
    data: Vec<u8>,
    addr: usize,
    pad: usize,
    size: usize,
}

impl Block {
    /// The size in bytes of the region.
    pub closed spec fn size_spec(&self) -> usize {
        self.size
    }

    /// The address of the first byte of the region.
    pub closed spec fn addr_spec(&self) -> usize {
        self.addr
    }

    /// The bytes of the region.
    pub closed spec fn bytes(&self) -> Seq<u8> {
        self.data@.subrange(self.pad as int, self.pad + self.size)
    }

    /// The region's size is a power of two, the aligned window lies inside
    /// the owned buffer, and the region's addresses fit the address space.
    pub closed spec fn wf(&self) -> bool {
        &&& is_pow2(self.size as int)
        &&& self.pad + self.size <= self.data@.len()
        &&& self.pad + self.size <= usize::MAX
        &&& self.addr as int % self.size as int == 0
        &&& self.addr + self.size <= usize::MAX
    }

    /// Acquires `size` bytes of process memory aligned to `size`. Fails with
    /// `InvalidSize` exactly when `size` is not a power of two, and with
    /// `OutOfMemory` when the memory cannot be obtained.
    pub fn new(size: usize) -> (r: Result<Block, AllocError>)
        ensures
            match r {
                Ok(b) => {
                    &&& b.wf()
                    &&& b.size_spec() == size
                    &&& b.bytes().len() == size
                    &&& b.addr_spec() as int % size as int == 0
                },
                Err(e) => e == AllocError::InvalidSize || e == AllocError::OutOfMemory,
            },
            (r matches Err(e) && e == AllocError::InvalidSize) <==> !is_pow2(size as int),
            is_pow2(size as int) && 2 * size > usize::MAX ==> (r matches Err(e) && e
                == AllocError::OutOfMemory),
    {
        if !is_power_of_two(size) {
            return Err(AllocError::InvalidSize);
        }
        if size > usize::MAX / 2 {
            return Err(AllocError::OutOfMemory);
        }
        let len = 2 * size;
        let mut data: Vec<u8> = Vec::new();
        if data.try_reserve(len).is_err() {
            return Err(AllocError::OutOfMemory);
        }
        data.resize(len, 0u8);
        let base = buffer_addr(&data);
        let rem = base % size;
        let pad: usize = if rem == 0 {
            0
        } else {
            size - rem
        };
        proof {
            lemma_align_up(base as int, size as int);
        }
        let addr = base + pad;
        Ok(Block { data, addr, pad, size })
    }

    /// The aligned base address of the region.
    pub fn as_ptr(&self) -> (r: usize)
        ensures
            r == self.addr_spec(),
            self.wf() ==> r as int % self.size_spec() as int == 0,
            self.wf() ==> r + self.size_spec() <= usize::MAX,
    {
        self.addr
    }

    /// The byte at `offset` within the region.
    pub fn read_byte(&self, offset: usize) -> (r: u8)
        requires
            self.wf(),
            offset < self.size_spec(),
        ensures
            r == self.bytes()[offset as int],
    {
        self.data[self.pad + offset]
    }

    /// Stores `value` at `offset` within the region; no byte outside the
    /// granted range is touched.
    pub fn write_byte(&mut self, offset: usize, value: u8)
        requires
            old(self).wf(),
            offset < old(self).size_spec(),
        ensures
            final(self).wf(),
            final(self).size_spec() == old(self).size_spec(),
            final(self).addr_spec() == old(self).addr_spec(),
            final(self).bytes() == old(self).bytes().update(offset as int, value),
    {
        let i = self.pad + offset;
        self.data[i] = value;
        proof {
            assert(final(self).bytes() =~= old(self).bytes().update(offset as int, value));
        }
    }
}

} // verus!
