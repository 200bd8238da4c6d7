//! A heap allocator that keeps its unused memory as a list of free regions.
//!
//! A request is served from the first region of the list in which it fits;
//! what the request leaves over goes back to the list as a region of its
//! own. A block that is given back becomes the first region of the list.
//! Neighbouring free regions are never merged, so a heap can hold more free
//! bytes than a request asks for and still have no region that serves it.
//!
//! The list is a chain of records, each of which owns the record that
//! follows it, behind a first record of no bytes that stands for no region
//! and is never handed out. The allocator records only free regions: the
//! blocks it has handed out are known to the proofs alone, as ghost state.

use vstd::prelude::*;
use vstd::arithmetic::power2::is_pow2;
use crate::align::{align_up, checked_align_up, lemma_align_up_bounds};
use crate::fit::{
    adjustable,
    adjusted_align,
    adjusted_size,
    alloc_result,
    block_start,
    first_fit,
    fits,
    free_after_alloc,
    hosts_node,
    is_first_fit,
    lemma_adjusted_align,
    lemma_adjusted_size,
    lemma_first_fit_none,
    lemma_first_fit_unique,
    lemma_multiple_of_multiple,
};
use crate::region::{Region, all_within, pairwise_disjoint};

verus! {

/// The bytes that the record of a free region takes up at the start of the
/// region it describes.
pub const NODE_SIZE: usize = 16;

/// The alignment that the record of a free region needs.
pub const NODE_ALIGN: usize = 8;

/// The record of one free region: where it starts, how many bytes it spans,
/// the record's own included, and the record that follows it in the list.
#[derive(Debug)]
pub struct ListNode {
    start: usize,
    size: usize,
    next: Option<Box<ListNode>>,
}

impl View for ListNode {
    type V = Region;

    closed spec fn view(&self) -> Region {
        Region { start: self.start as nat, size: self.size as nat }
    }
}

impl ListNode {
    /// The regions of the records from `link` on, in their order.
    pub closed spec fn chain(link: Option<Box<ListNode>>) -> Seq<Region>
        decreases link,
    {
        match link {
            None => Seq::empty(),
            Some(node) => seq![node.view()] + Self::chain(node.next),
        }
    }

    /// The regions of the records that follow this one.
    pub closed spec fn followers(&self) -> Seq<Region> {
        Self::chain(self.next)
    }

    /// The record of the region of `size` bytes that starts at `start`, with
    /// no record behind it.
    pub fn new(start: usize, size: usize) -> (node: ListNode)
        ensures
            node@ == (Region { start: start as nat, size: size as nat }),
            node.followers() == Seq::<Region>::empty(),
    {
        ListNode { start, size, next: None }
    }

    /// The number of bytes in the region.
    pub fn size(&self) -> (s: usize)
        ensures
            s == self@.size,
    {
        self.size
    }

    /// The address of the region's first byte.
    pub fn start_addr(&self) -> (a: usize)
        ensures
            a == self@.start,
    {
        self.start
    }

    /// The first address past the region.
    pub fn end_addr(&self) -> (a: usize)
        requires
            self@.end() <= usize::MAX,
        ensures
            a == self@.end(),
    {
        self.start + self.size
    }
}

/// The allocator: the list of free regions, most recently added first.
pub struct LinkedListAllocator {
    /// The record of no bytes that the records of the free regions follow.
    head: ListNode,
    /// The range that the allocator was given to manage.
    heap: Ghost<Region>,
    /// The blocks handed out and not yet given back.
    live: Ghost<Seq<Region>>,
    /// Whether the allocator has been given its range.
    ready: Ghost<bool>,
}

impl LinkedListAllocator {
    /// The free regions in the order in which a request tries them: the most
    /// recently added one first.
    pub closed spec fn free_list(&self) -> Seq<Region> {
        self.head.followers()
    }

    /// The region of the list's first record, which stands for no memory.
    pub closed spec fn sentinel(&self) -> Region {
        self.head@
    }

    /// The blocks handed out and not yet given back, in the order in which
    /// they were handed out.
    pub closed spec fn live_blocks(&self) -> Seq<Region> {
        self.live@
    }

    /// The range that the allocator manages.
    pub closed spec fn heap(&self) -> Region {
        self.heap@
    }

    /// Whether the allocator has been given its range.
    pub closed spec fn is_initialized(&self) -> bool {
        self.ready@
    }

    /// The allocator's invariant. The list's first record spans no bytes.
    /// Every free region and every live block can carry a region record;
    /// they lie within the heap, and no two of them share an address. Before
    /// the allocator is given its range it has neither.
    pub open spec fn wf(&self) -> bool {
        &&& self.sentinel().size == 0
        &&& self.heap().end() <= usize::MAX
        &&& forall|i: int|
            0 <= i < self.free_list().len() ==> hosts_node(#[trigger] self.free_list()[i])
        &&& forall|j: int|
            0 <= j < self.live_blocks().len() ==> hosts_node(#[trigger] self.live_blocks()[j])
        &&& all_within(self.free_list(), self.heap())
        &&& all_within(self.live_blocks(), self.heap())
        &&& pairwise_disjoint(self.free_list())
        &&& pairwise_disjoint(self.live_blocks())
        &&& forall|i: int, j: int|
            0 <= i < self.free_list().len() && 0 <= j < self.live_blocks().len() ==> (
            #[trigger] self.free_list()[i]).disjoint(#[trigger] self.live_blocks()[j])
        &&& !self.is_initialized() ==> self.free_list().len() == 0 && self.live_blocks().len()
            == 0
    }

    /// The range shares no address with a free region or a live block.
    pub open spec fn unused(&self, r: Region) -> bool {
        &&& forall|i: int|
            0 <= i < self.free_list().len() ==> r.disjoint(#[trigger] self.free_list()[i])
        &&& forall|j: int|
            0 <= j < self.live_blocks().len() ==> r.disjoint(#[trigger] self.live_blocks()[j])
    }

    /// An allocator that has not been given a heap yet.
    pub fn new() -> (a: LinkedListAllocator)
        ensures
            a.wf(),
            !a.is_initialized(),
            a.free_list() == Seq::<Region>::empty(),
            a.live_blocks() == Seq::<Region>::empty(),
    {
        let a = LinkedListAllocator {
            head: ListNode::new(0, 0),
            heap: Ghost(Region { start: 0, size: 0 }),
            live: Ghost(Seq::empty()),
            ready: Ghost(false),
        };
        a
    }

    /// Hands the allocator the range it is to manage, as one free region.
    pub fn init(&mut self, heap_start: usize, heap_size: usize)
        requires
            old(self).wf(),
            !old(self).is_initialized(),
            hosts_node(Region { start: heap_start as nat, size: heap_size as nat }),
        ensures
            final(self).wf(),
            final(self).is_initialized(),
            final(self).heap() == (Region { start: heap_start as nat, size: heap_size as nat }),
            final(self).free_list() == seq![final(self).heap()],
            final(self).live_blocks() == Seq::<Region>::empty(),
    {
        self.heap = Ghost(Region { start: heap_start as nat, size: heap_size as nat });
        self.ready = Ghost(true);
        self.add_free_region(heap_start, heap_size);
    }

    /// Puts the range of `size` bytes at `addr` in front of the free list.
    pub fn add_free_region(&mut self, addr: usize, size: usize)
        requires
            old(self).wf(),
            old(self).is_initialized(),
            hosts_node(Region { start: addr as nat, size: size as nat }),
            (Region { start: addr as nat, size: size as nat }).within(old(self).heap()),
            old(self).unused(Region { start: addr as nat, size: size as nat }),
        ensures
            final(self).wf(),
            final(self).is_initialized(),
            final(self).heap() == old(self).heap(),
            final(self).live_blocks() == old(self).live_blocks(),
            final(self).free_list() == seq![Region { start: addr as nat, size: size as nat }]
                + old(self).free_list(),
    {
        let mut node = ListNode::new(addr, size);
        node.next = self.head.next.take();
        self.head.next = Some(Box::new(node));
    }

    /// Tests whether a block of `size` bytes aligned to `align` can be cut
    /// from `region`, and gives the address at which the block would start.
    pub fn alloc_from_region_possible(region: &ListNode, size: usize, align: usize) -> (r: Result<
        usize,
        (),
    >)
        requires
            align > 0,
            region@.end() <= usize::MAX,
        ensures
            match r {
                Ok(start) => fits(region@, size as nat, align as nat) && start == block_start(
                    region@,
                    align as nat,
                ),
                Err(_) => !fits(region@, size as nat, align as nat),
            },
    {
        let alloc_start: usize = match checked_align_up(region.start_addr(), align) {
            Some(s) => s,
            None => {
                return Err(());
            },
        };
        let alloc_end: usize = match alloc_start.checked_add(size) {
            Some(e) => e,
            None => {
                return Err(());
            },
        };
        if alloc_end > region.end_addr() {
            return Err(());
        }
        let excess_size: usize = region.end_addr() - alloc_end;
        if excess_size > 0 && excess_size < NODE_SIZE {
            return Err(());
        }
        Ok(alloc_start)
    }

    /// Takes from the free list the first region from which a block of `size`
    /// bytes aligned to `align` can be cut, and returns its record together
    /// with the address at which the block starts.
    pub fn find_region(&mut self, size: usize, align: usize) -> (r: Option<(ListNode, usize)>)
        requires
            old(self).wf(),
            align > 0,
        ensures
            final(self).wf(),
            final(self).is_initialized() == old(self).is_initialized(),
            final(self).heap() == old(self).heap(),
            final(self).live_blocks() == old(self).live_blocks(),
            match first_fit(old(self).free_list(), size as nat, align as nat) {
                Some(i) => r matches Some((node, start)) && node@ == old(self).free_list()[i]
                    && node.followers() == Seq::<Region>::empty() && start == block_start(
                    node@,
                    align as nat,
                ) && final(self).free_list() == old(self).free_list().remove(i),
                None => r is None && final(self).free_list() == old(self).free_list(),
            },
    {
        let ghost before = self.free_list();
        let (found, Ghost(k)) = Self::take_first_fit(&mut self.head.next, size, align);
        proof {
            if found is Some {
                lemma_first_fit_unique(before, k, size as nat, align as nat);
            } else {
                lemma_first_fit_none(before, size as nat, align as nat);
            }
        }
        found
    }

    /// Unlinks from the chain that begins at `link` the first record from
    /// whose region the block can be cut: the link that led to the record
    /// then leads to the one behind it. Returns the record, the address at
    /// which the block starts and, for the proofs, the record's position.
    #[verifier::loop_isolation(false)]
    fn take_first_fit(link: &mut Option<Box<ListNode>>, size: usize, align: usize) -> (r: (
        Option<(ListNode, usize)>,
        Ghost<int>,
    ))
        requires
            align > 0,
            forall|i: int|
                0 <= i < ListNode::chain(*old(link)).len() ==> (#[trigger] ListNode::chain(
                    *old(link),
                )[i]).end() <= usize::MAX,
        ensures
            match r.0 {
                Some((node, start)) => {
                    &&& is_first_fit(ListNode::chain(*old(link)), r.1@, size as nat, align as nat)
                    &&& node@ == ListNode::chain(*old(link))[r.1@]
                    &&& node.followers() == Seq::<Region>::empty()
                    &&& start == block_start(node@, align as nat)
                    &&& ListNode::chain(*final(link)) == ListNode::chain(*old(link)).remove(r.1@)
                },
                None => {
                    &&& forall|j: int|
                        0 <= j < ListNode::chain(*old(link)).len() ==> !fits(
                            #[trigger] ListNode::chain(*old(link))[j],
                            size as nat,
                            align as nat,
                        )
                    &&& ListNode::chain(*final(link)) == ListNode::chain(*old(link))
                },
            },
    {
        let ghost before = ListNode::chain(*link);
        let ghost end = *final(link);
        let ghost mut k: int = 0;
        // The link that leads to the record under test.
        let mut previous: &mut Option<Box<ListNode>> = link;
        loop
            invariant
                0 <= k <= before.len(),
                ListNode::chain(*previous) == before.skip(k),
                ListNode::chain(end) == before.take(k) + ListNode::chain(*final(previous)),
                forall|j: int| 0 <= j < k ==> !fits(#[trigger] before[j], size as nat, align as nat),
            decreases before.len() - k,
        {
            let ghost later = *final(previous);
            let fit = match previous {
                None => {
                    return (None, Ghost(k));
                },
                Some(region) => {
                    proof {
                        assert(before.skip(k)[0] == region.view());
                    }
                    Self::alloc_from_region_possible(region, size, align)
                },
            };
            proof {
                assert(before.skip(k).drop_first() =~= before.skip(k + 1));
            }
            match fit {
                Ok(start) => {
                    let mut region = previous.take().unwrap();
                    *previous = region.next.take();
                    return (Some((*region, start)), Ghost(k));
                },
                Err(_) => {},
            }
            match previous {
                Some(region) => {
                    previous = &mut region.next;
                },
                None => {},
            }
            proof {
                assert(ListNode::chain(later) =~= seq![before[k]] + ListNode::chain(
                    *final(previous),
                ));
                assert(before.take(k) + (seq![before[k]] + ListNode::chain(*final(previous)))
                    =~= before.take(k + 1) + ListNode::chain(*final(previous)));
                k = k + 1;
            }
        }
    }

    /// Adjusts a request so that the block it receives can carry a region
    /// record once it is given back: the alignment is raised to that of a
    /// record; the size is padded to a multiple of that alignment, so that
    /// what follows the block stays aligned, and then raised to the size of a
    /// record. Returns the adjusted size and alignment.
    ///
    /// For a request of at least one byte the order of padding and raising
    /// makes no difference; a request of no bytes receives the size of a
    /// record whatever its alignment.
    pub fn size_align(size: usize, align: usize) -> (r: (usize, usize))
        requires
            adjustable(size as nat, align as nat),
        ensures
            r.0 == adjusted_size(size as nat, align as nat),
            r.1 == adjusted_align(align as nat),
    {
        let align: usize = if align >= NODE_ALIGN {
            align
        } else {
            NODE_ALIGN
        };
        let padded: usize = align_up(size, align);
        let size: usize = if padded >= NODE_SIZE {
            padded
        } else {
            NODE_SIZE
        };
        (size, align)
    }

    /// Tests whether a request's size can be adjusted, which `size_align`
    /// and the functions that serve and take back blocks ask of it.
    pub fn can_adjust(size: usize, align: usize) -> (ok: bool)
        ensures
            ok == adjustable(size as nat, align as nat),
    {
        let align: usize = if align >= NODE_ALIGN {
            align
        } else {
            NODE_ALIGN
        };
        checked_align_up(size, align).is_some()
    }

    /// Serves a request for `size` bytes aligned to `align` from the first
    /// free region in which the adjusted request fits, and returns the
    /// block's address. What the region keeps behind the block becomes the
    /// first region of the free list. Where no region fits, returns `None`
    /// and changes nothing.
    pub fn allocate(&mut self, size: usize, align: usize) -> (r: Option<usize>)
        requires
            old(self).wf(),
            is_pow2(align as int),
            adjustable(size as nat, align as nat),
        ensures
            final(self).wf(),
            final(self).is_initialized() == old(self).is_initialized(),
            final(self).heap() == old(self).heap(),
            match alloc_result(
                old(self).free_list(),
                adjusted_size(size as nat, align as nat),
                adjusted_align(align as nat),
            ) {
                Some(a) => r == Some(a as usize) && a <= usize::MAX && final(self).live_blocks()
                    == old(self).live_blocks().push(
                    Region { start: a, size: adjusted_size(size as nat, align as nat) },
                ),
                None => r is None && final(self).live_blocks() == old(self).live_blocks(),
            },
            final(self).free_list() == free_after_alloc(
                old(self).free_list(),
                adjusted_size(size as nat, align as nat),
                adjusted_align(align as nat),
            ),
            match r {
                Some(a) => a % align == 0 && a as nat % adjusted_align(align as nat) == 0 && (Region {
                    start: a as nat,
                    size: adjusted_size(size as nat, align as nat),
                }).within(old(self).heap()),
                None => true,
            },
    {
        let ghost asked_align = align as nat;
        proof {
            lemma_adjusted_align(align as nat);
            lemma_adjusted_size(size as nat, align as nat);
        }
        let (size, align) = Self::size_align(size, align);
        match self.find_region(size, align) {
            Some((region, alloc_start)) => {
                let ghost block = Region { start: alloc_start as nat, size: size as nat };
                proof {
                    lemma_align_up_bounds(region@.start, align as nat);
                    lemma_multiple_of_multiple(alloc_start as nat, align as nat, asked_align);
                    lemma_multiple_of_multiple(
                        alloc_start as nat,
                        align as nat,
                        NODE_ALIGN as nat,
                    );
                }
                let alloc_end: usize = alloc_start + size;
                let excess_size: usize = region.end_addr() - alloc_end;
                if excess_size > 0 {
                    self.add_free_region(alloc_end, excess_size);
                }
                self.live = Ghost(self.live@.push(block));
                Some(alloc_start)
            },
            None => None,
        }
    }

    /// Takes back the block at `addr` that a request for `size` bytes aligned
    /// to `align` received, and makes it the first region of the free list.
    pub fn deallocate(&mut self, addr: usize, size: usize, align: usize)
        requires
            old(self).wf(),
            adjustable(size as nat, align as nat),
            old(self).live_blocks().contains(
                Region { start: addr as nat, size: adjusted_size(size as nat, align as nat) },
            ),
        ensures
            final(self).wf(),
            final(self).is_initialized() == old(self).is_initialized(),
            final(self).heap() == old(self).heap(),
            final(self).free_list() == seq![
                Region { start: addr as nat, size: adjusted_size(size as nat, align as nat) },
            ] + old(self).free_list(),
            final(self).live_blocks() == old(self).live_blocks().remove(
                old(self).live_blocks().index_of(
                    Region { start: addr as nat, size: adjusted_size(size as nat, align as nat) },
                ),
            ),
    {
        let ghost block = Region {
            start: addr as nat,
            size: adjusted_size(size as nat, align as nat),
        };
        let (size, _) = Self::size_align(size, align);
        self.live = Ghost(self.live@.remove(self.live@.index_of(block)));
        self.add_free_region(addr, size);
    }
}

} // verus!
