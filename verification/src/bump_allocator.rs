//! The kernel heap: a bump allocator that grows the heap region on demand.
use vstd::prelude::*;
use crate::align::{is_pow2, low_mask, lemma_low_mask_is_mod};

verus! {

/// The heap state: allocation starts at `alloc_start`; the heap is mapped
/// from `heap_base` up to `alloc_present`.
pub struct BumpAllocator {
    pub heap_base: usize,
    pub alloc_start: usize,
    pub alloc_present: usize,
}

/// The result of one allocation.
pub struct BumpAlloc {
    /// The address of the new block.
    pub ptr: usize,
    /// The new size of the heap region to map, when the block runs past it.
    pub expand_to: Option<usize>,
}

/// The first address at or above `start` that is a multiple of `align`.
pub open spec fn aligned_start(start: usize, align: usize) -> int {
    if start & low_mask(align) != 0 {
        start + (align - (start & low_mask(align)))
    } else {
        start as int
    }
}

impl BumpAllocator {
    /// A heap of `initial_size` bytes mapped at `heap_base`.
    pub fn new(heap_base: usize, initial_size: usize) -> (r: BumpAllocator)
        requires
            heap_base + initial_size <= usize::MAX,
        ensures
            r.heap_base == heap_base,
            r.alloc_start == heap_base,
            r.alloc_present == heap_base + initial_size,
    {
        BumpAllocator { heap_base, alloc_start: heap_base, alloc_present: heap_base + initial_size }
    }

    /// Allocates `size` bytes aligned to `align`. Blocks are never freed.
    pub fn allocate(&mut self, size: usize, align: usize) -> (r: BumpAlloc)
        requires
            is_pow2(align),
            old(self).heap_base <= old(self).alloc_start,
            old(self).alloc_start + align + size + 0x1000 <= usize::MAX,
        ensures
            r.ptr == aligned_start(old(self).alloc_start, align),
            r.ptr % align == 0,
            old(self).alloc_start <= r.ptr,
            final(self).alloc_start == r.ptr + size,
            final(self).heap_base == old(self).heap_base,
            final(self).alloc_start >= old(self).alloc_present ==> {
                &&& r.expand_to == Some((((final(self).alloc_start - old(self).heap_base) as usize & !0xfffusize) + 0x1000) as usize)
                &&& final(self).alloc_present == ((final(self).alloc_start & !0xfffusize) + 0x1000) as usize
            },
            final(self).alloc_start < old(self).alloc_present ==> {
                &&& r.expand_to is None
                &&& final(self).alloc_present == old(self).alloc_present
            },
    {
        let mut start = self.alloc_start;
        proof {
            lemma_low_mask_is_mod(start, align);
        }
        if start & (align - 1) != 0 {
            start = start + (align - (start & (align - 1)));
        }
        proof {
            vstd::arithmetic::div_mod::lemma_fundamental_div_mod(self.alloc_start as int, align as int);
            if self.alloc_start % align != 0 {
                assert(start == self.alloc_start - self.alloc_start % align + align);
                vstd::arithmetic::div_mod::lemma_mod_multiples_vanish((self.alloc_start / align) as int + 1, 0, align as int);
                assert(start == align * (self.alloc_start / align + 1)) by (nonlinear_arith)
                    requires
                        start == self.alloc_start - self.alloc_start % align + align,
                        self.alloc_start == align * (self.alloc_start / align) + self.alloc_start % align;
                vstd::arithmetic::div_mod::lemma_mod_multiples_basic((self.alloc_start / align) as int + 1, align as int);
                vstd::arithmetic::mul::lemma_mul_is_commutative(align as int, (self.alloc_start / align) as int + 1);
            }
        }
        self.alloc_start = start + size;
        let mut expand_to: Option<usize> = None;
        if self.alloc_start >= self.alloc_present {
            let a = self.alloc_start;
            let d = (self.alloc_start - self.heap_base) as usize;
            assert((a & !0xfffusize) <= a && (d & !0xfffusize) <= d) by (bit_vector);
            let requested_len = ((self.alloc_start - self.heap_base) & !0xfff) + 0x1000;
            expand_to = Some(requested_len);
            self.alloc_present = (self.alloc_start & !0xfff) + 0x1000;
        }
        BumpAlloc { ptr: start, expand_to }
    }
}

} // verus!
