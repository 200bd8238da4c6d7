//! What holds of the allocator over whole runs: statements that relate
//! several of its operations, proved from their contracts.

use vstd::prelude::*;
use vstd::arithmetic::power2::is_pow2;
use crate::align::lemma_align_up_bounds;
use crate::fit::{
    adjusted_align,
    adjusted_size,
    alloc_result,
    block_start,
    fits,
    free_after_alloc,
    hosts_node,
    lemma_adjusted_align,
    lemma_adjusted_size,
    lemma_first_fit_none,
    lemma_first_fit_unique,
    lemma_fit_has_first,
    lemma_multiple_of_multiple,
};
use crate::linked_list::{LinkedListAllocator, NODE_SIZE};
use crate::region::{Region, lemma_disjoint_ranges_fit, lemma_total_size_concat, total_size};

verus! {

/// A block fits in a region that starts at an address of the block's
/// alignment if it takes up the whole region or leaves room for a region
/// record behind it.
pub proof fn lemma_fits_aligned_region(region: Region, size: nat, align: nat)
    requires
        align > 0,
        region.start % align == 0,
        size == region.size || size + NODE_SIZE <= region.size,
    ensures
        fits(region, size, align),
        block_start(region, align) == region.start,
{
}

/// The first request to a freshly initialized heap is served exactly when
/// the adjusted request fits in the heap's one region. The block it then
/// receives lies within the heap and starts at a multiple of the alignment
/// asked for.
pub proof fn lemma_first_request(heap: Region, size: nat, align: nat)
    requires
        hosts_node(heap),
        is_pow2(align as int),
    ensures
        alloc_result(seq![heap], adjusted_size(size, align), adjusted_align(align)) is Some
            <==> fits(heap, adjusted_size(size, align), adjusted_align(align)),
        match alloc_result(seq![heap], adjusted_size(size, align), adjusted_align(align)) {
            Some(addr) => {
                &&& heap.start <= addr < heap.end()
                &&& addr + adjusted_size(size, align) <= heap.end()
                &&& addr % align == 0
            },
            None => true,
        },
{
    let s = adjusted_size(size, align);
    let a = adjusted_align(align);
    let free = seq![heap];
    lemma_adjusted_align(align);
    lemma_adjusted_size(size, align);
    lemma_align_up_bounds(heap.start, a);
    if fits(heap, s, a) {
        lemma_first_fit_unique(free, 0, s, a);
        lemma_multiple_of_multiple(block_start(heap, a), a, align);
    } else {
        lemma_first_fit_none(free, s, a);
    }
}

/// A request goes unserved exactly when it fits in no free region, however
/// many bytes the free regions hold together.
pub proof fn lemma_out_of_memory(free: Seq<Region>, size: nat, align: nat)
    ensures
        alloc_result(free, size, align) is None <==> forall|j: int|
            0 <= j < free.len() ==> !fits(#[trigger] free[j], size, align),
        alloc_result(free, size, align) is None ==> free_after_alloc(free, size, align) == free,
{
    if alloc_result(free, size, align) is None {
        assert forall|j: int| 0 <= j < free.len() implies !fits(
            #[trigger] free[j],
            size,
            align,
        ) by {
            if fits(free[j], size, align) {
                lemma_fit_has_first(free, j, size, align);
            }
        }
    }
    if forall|j: int| 0 <= j < free.len() ==> !fits(#[trigger] free[j], size, align) {
        lemma_first_fit_none(free, size, align);
    }
}

/// A block that is given back is the first region of the free list, and a
/// request of the same size and alignment that follows at once receives the
/// same address and leaves the free list as it was before the block was
/// given back.
pub proof fn lemma_returned_block_is_reused(free: Seq<Region>, addr: nat, size: nat, align: nat)
    requires
        is_pow2(align as int),
        addr % adjusted_align(align) == 0,
    ensures
        alloc_result(
            seq![Region { start: addr, size: adjusted_size(size, align) }] + free,
            adjusted_size(size, align),
            adjusted_align(align),
        ) == Some(addr),
        free_after_alloc(
            seq![Region { start: addr, size: adjusted_size(size, align) }] + free,
            adjusted_size(size, align),
            adjusted_align(align),
        ) == free,
{
    let s = adjusted_size(size, align);
    let a = adjusted_align(align);
    let block = Region { start: addr, size: s };
    let list = seq![block] + free;
    lemma_adjusted_align(align);
    lemma_fits_aligned_region(block, s, a);
    lemma_first_fit_unique(list, 0, s, a);
}

/// No two blocks that are in use at the same time share an address.
pub proof fn lemma_live_blocks_apart(a: &LinkedListAllocator, i: int, j: int)
    requires
        a.wf(),
        0 <= i < a.live_blocks().len(),
        0 <= j < a.live_blocks().len(),
        i != j,
    ensures
        a.live_blocks()[i].disjoint(a.live_blocks()[j]),
{
    if i < j {
        assert(a.live_blocks()[i].disjoint(a.live_blocks()[j]));
    } else {
        assert(a.live_blocks()[j].disjoint(a.live_blocks()[i]));
    }
}

/// No block in use shares an address with a free region.
pub proof fn lemma_live_blocks_not_free(a: &LinkedListAllocator, i: int, j: int)
    requires
        a.wf(),
        0 <= i < a.free_list().len(),
        0 <= j < a.live_blocks().len(),
    ensures
        a.free_list()[i].disjoint(a.live_blocks()[j]),
{
}

/// The free regions and the blocks in use never hold more bytes together
/// than the heap has.
pub proof fn lemma_tracked_bytes_bounded(a: &LinkedListAllocator)
    requires
        a.wf(),
    ensures
        total_size(a.free_list()) + total_size(a.live_blocks()) <= a.heap().size,
{
    let free = a.free_list();
    let live = a.live_blocks();
    let all = free + live;
    lemma_disjoint_ranges_fit(all, a.heap());
    lemma_total_size_concat(free, live);
}

} // verus!
