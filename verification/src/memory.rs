//! Choosing physical frames from the memory map that the boot loader hands
//! over.

use vstd::prelude::*;

verus! {

/// The number of bytes in one frame of physical memory.
pub const FRAME_SIZE: u64 = 4096;

/// One entry of the boot memory map: the physical addresses from `start` up
/// to, and not including, `end`, and whether the kernel may use them.
#[derive(Clone, Copy, Debug)]
pub struct MemoryRange {
    pub start: u64,
    pub end: u64,
    pub usable: bool,
}

/// The number of frames that an entry offers: none if it is in use or empty,
/// else one for every step of a frame's size from its start that stays below
/// its end.
pub open spec fn frames_in(r: MemoryRange) -> nat {
    if r.usable && r.start < r.end {
        ((r.end - r.start - 1) / (FRAME_SIZE as int) + 1) as nat
    } else {
        0
    }
}

/// The address of the frame with number `n`, counted from zero through the
/// usable entries of `map` in their order, if there are that many.
pub open spec fn nth_usable_frame(map: Seq<MemoryRange>, n: nat) -> Option<nat>
    decreases map.len(),
{
    if map.len() == 0 {
        None
    } else if n < frames_in(map[0]) {
        Some((map[0].start + n * FRAME_SIZE) as nat)
    } else {
        nth_usable_frame(map.drop_first(), (n - frames_in(map[0])) as nat)
    }
}

/// Once the frames run out they stay out: where frame `n` does not exist,
/// neither does a later one.
pub proof fn lemma_no_frame_after_the_last(map: Seq<MemoryRange>, n: nat, m: nat)
    requires
        nth_usable_frame(map, n) is None,
        n <= m,
    ensures
        nth_usable_frame(map, m) is None,
    decreases map.len(),
{
    if map.len() > 0 {
        lemma_no_frame_after_the_last(
            map.drop_first(),
            (n - frames_in(map[0])) as nat,
            (m - frames_in(map[0])) as nat,
        );
    }
}

/// Hands out the usable frames of a memory map one after another.
pub struct BootInfoFrameAllocator {
    memory_map: Vec<MemoryRange>,
    next: usize,
}

impl BootInfoFrameAllocator {
    /// The memory map that the frames are taken from.
    pub closed spec fn map(&self) -> Seq<MemoryRange> {
        self.memory_map@
    }

    /// The number of the frame that is handed out next.
    pub closed spec fn next_index(&self) -> nat {
        self.next as nat
    }

    /// An allocator over `memory_map` that has handed out nothing yet.
    pub fn init(memory_map: Vec<MemoryRange>) -> (a: BootInfoFrameAllocator)
        ensures
            a.map() == memory_map@,
            a.next_index() == 0,
    {
        BootInfoFrameAllocator { memory_map, next: 0 }
    }

    /// The address of the usable frame with number `n`, if there are that
    /// many.
    pub fn usable_frame(&self, n: usize) -> (r: Option<u64>)
        ensures
            match nth_usable_frame(self.map(), n as nat) {
                Some(addr) => r == Some(addr as u64) && addr <= u64::MAX,
                None => r is None,
            },
    {
        let mut remaining: u64 = n as u64;
        let mut i: usize = 0;
        assert(self.memory_map@.skip(0) =~= self.memory_map@);
        while i < self.memory_map.len()
            invariant
                i <= self.memory_map@.len(),
                nth_usable_frame(self.memory_map@, n as nat) == nth_usable_frame(
                    self.memory_map@.skip(i as int),
                    remaining as nat,
                ),
            decreases self.memory_map@.len() - i,
        {
            let range: MemoryRange = self.memory_map[i];
            let ghost rest = self.memory_map@.skip(i as int);
            assert(rest.drop_first() =~= self.memory_map@.skip(i + 1));
            if range.usable && range.start < range.end {
                let count: u64 = (range.end - range.start - 1) / FRAME_SIZE + 1;
                if remaining < count {
                    return Some(range.start + remaining * FRAME_SIZE);
                }
                remaining -= count;
            }
            i += 1;
        }
        None
    }

    /// Hands out the next usable frame, if one is left.
    pub fn allocate_frame(&mut self) -> (r: Option<u64>)
        requires
            old(self).next_index() < usize::MAX,
        ensures
            final(self).map() == old(self).map(),
            final(self).next_index() == old(self).next_index() + 1,
            match nth_usable_frame(old(self).map(), old(self).next_index()) {
                Some(addr) => r == Some(addr as u64) && addr <= u64::MAX,
                None => r is None,
            },
    {
        let frame = self.usable_frame(self.next);
        self.next += 1;
        frame
    }
}

} // verus!
