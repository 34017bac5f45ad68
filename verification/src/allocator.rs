//! A bump allocator: memory is handed out in order from a start address and
//! never given back.
use vstd::prelude::*;

verus! {

/// Where the next allocation starts, once the allocator is initialised.
pub struct BumpAllocator {
    pub placement_ptr: Option<usize>,
}

impl BumpAllocator {
    /// An allocator that has not been initialised yet.
    pub fn new() -> (a: BumpAllocator)
        ensures
            a.placement_ptr is None,
    {
        BumpAllocator { placement_ptr: None }
    }
}

/// Starts allocating at `end` (the first address after the kernel image).
pub fn init_alloc(allocator: &mut BumpAllocator, end: usize)
    ensures
        final(allocator).placement_ptr == Some(end),
{
    allocator.placement_ptr = Some(end);
}

/// Hands out `size` bytes: returns the current placement address and moves
/// it on by `size`.
pub fn allocate(allocator: &mut BumpAllocator, size: usize) -> (address: usize)
    requires
        old(allocator).placement_ptr is Some,
        old(allocator).placement_ptr->0 + size <= usize::MAX,
    ensures
        address == old(allocator).placement_ptr->0,
        final(allocator).placement_ptr == Some((address + size) as usize),
{
    let address = allocator.placement_ptr.unwrap();
    allocator.placement_ptr = Some(address + size);
    address
}

/// Total of the first `n` sizes.
pub open spec fn total_size(sizes: Seq<usize>, n: int) -> int
    decreases n,
{
    if n <= 0 {
        0
    } else {
        total_size(sizes, n - 1) + sizes[n - 1]
    }
}

/// Where block `i` starts when blocks of `sizes` are allocated in turn from `start`.
pub open spec fn block_start(start: int, sizes: Seq<usize>, i: int) -> int {
    start + total_size(sizes, i)
}

/// Totals grow with the number of sizes counted.
pub proof fn lemma_total_size_monotone(sizes: Seq<usize>, i: int, j: int)
    requires
        0 <= i <= j <= sizes.len(),
    ensures
        total_size(sizes, i) + (if i < j { sizes[i] as int } else { 0 }) <= total_size(sizes, j),
    decreases j - i,
{
    if i < j {
        lemma_total_size_monotone(sizes, i, j - 1);
        if i < j - 1 {
            lemma_total_size_monotone(sizes, i + 1, j - 1);
        }
    }
}

/// Blocks allocated one after another never overlap: each starts where the
/// one before it ends, so block `i` lies wholly below block `j` for `i < j`.
pub proof fn lemma_blocks_disjoint(start: int, sizes: Seq<usize>, i: int, j: int)
    requires
        0 <= i < j < sizes.len(),
    ensures
        block_start(start, sizes, i) + sizes[i] <= block_start(start, sizes, j),
        block_start(start, sizes, i + 1) == block_start(start, sizes, i) + sizes[i],
{
    lemma_total_size_monotone(sizes, i, j);
}

} // verus!
