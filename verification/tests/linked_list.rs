use clacos::linked_list::{LinkedListAllocator, ListNode, NODE_ALIGN, NODE_SIZE};

const HEAP_START: usize = 0x4444_0000;

fn heap(size: usize) -> LinkedListAllocator {
    let mut a = LinkedListAllocator::new();
    a.init(HEAP_START, size);
    a
}

/// Takes every region off the free list, first to last.
fn drain(a: &mut LinkedListAllocator) -> Vec<(usize, usize)> {
    let mut out = Vec::new();
    while let Some((node, start)) = a.find_region(0, 1) {
        assert_eq!(start, node.start_addr());
        out.push((node.start_addr(), node.size()));
    }
    out
}

#[test]
fn node_constants() {
    assert_eq!(NODE_SIZE, 16);
    assert_eq!(NODE_ALIGN, 8);
}

#[test]
fn list_node_addresses() {
    let node = ListNode::new(0x1000, 48);
    assert_eq!(node.start_addr(), 0x1000);
    assert_eq!(node.size(), 48);
    assert_eq!(node.end_addr(), 0x1030);
}

#[test]
fn new_allocator_has_no_memory() {
    let mut a = LinkedListAllocator::new();
    assert_eq!(a.allocate(1, 1), None);
    assert!(a.find_region(16, 8).is_none());
    assert!(a.find_region(0, 1).is_none());
}

#[test]
fn init_makes_one_region_of_the_heap() {
    let mut a = heap(1024);
    assert_eq!(drain(&mut a), vec![(HEAP_START, 1024)]);
}

#[test]
fn size_align_pads_and_raises() {
    assert_eq!(LinkedListAllocator::size_align(100, 8), (104, 8));
    assert_eq!(LinkedListAllocator::size_align(1, 1), (16, 8));
    assert_eq!(LinkedListAllocator::size_align(8, 8), (16, 8));
    assert_eq!(LinkedListAllocator::size_align(16, 4), (16, 8));
    assert_eq!(LinkedListAllocator::size_align(17, 8), (24, 8));
    assert_eq!(LinkedListAllocator::size_align(1, 4096), (4096, 4096));
    assert_eq!(LinkedListAllocator::size_align(33, 32), (64, 32));
    assert_eq!(LinkedListAllocator::size_align(64, 16), (64, 16));
}

#[test]
fn size_align_of_no_bytes_is_one_record() {
    assert_eq!(LinkedListAllocator::size_align(0, 1), (16, 8));
    assert_eq!(LinkedListAllocator::size_align(0, 32), (16, 32));
}

#[test]
fn region_serves_a_block_that_leaves_room() {
    let region = ListNode::new(0x1000, 128);
    assert_eq!(LinkedListAllocator::alloc_from_region_possible(&region, 64, 8), Ok(0x1000));
    assert_eq!(LinkedListAllocator::alloc_from_region_possible(&region, 112, 8), Ok(0x1000));
}

#[test]
fn region_serves_a_block_that_fills_it() {
    let region = ListNode::new(0x1000, 128);
    assert_eq!(LinkedListAllocator::alloc_from_region_possible(&region, 128, 8), Ok(0x1000));
}

#[test]
fn region_refuses_a_block_that_is_too_large() {
    let region = ListNode::new(0x1000, 128);
    assert_eq!(LinkedListAllocator::alloc_from_region_possible(&region, 129, 8), Err(()));
    assert_eq!(LinkedListAllocator::alloc_from_region_possible(&region, 4096, 8), Err(()));
}

#[test]
fn region_refuses_a_leftover_too_small_for_a_record() {
    let region = ListNode::new(0x1000, 128);
    assert_eq!(LinkedListAllocator::alloc_from_region_possible(&region, 113, 8), Err(()));
    assert_eq!(LinkedListAllocator::alloc_from_region_possible(&region, 120, 8), Err(()));
    assert_eq!(LinkedListAllocator::alloc_from_region_possible(&region, 127, 8), Err(()));
}

#[test]
fn region_aligns_the_block() {
    let region = ListNode::new(0x1008, 0x2000);
    assert_eq!(LinkedListAllocator::alloc_from_region_possible(&region, 64, 8), Ok(0x1008));
    assert_eq!(LinkedListAllocator::alloc_from_region_possible(&region, 64, 16), Ok(0x1010));
    assert_eq!(LinkedListAllocator::alloc_from_region_possible(&region, 64, 4096), Ok(0x2000));
    // 0x2000 + 0x1008 is the region's end: the block fills the rest exactly.
    assert_eq!(LinkedListAllocator::alloc_from_region_possible(&region, 0x1008, 4096), Ok(0x2000));
    assert_eq!(LinkedListAllocator::alloc_from_region_possible(&region, 0x1000, 4096), Err(()));
    assert_eq!(LinkedListAllocator::alloc_from_region_possible(&region, 0x1010, 4096), Err(()));
}

#[test]
fn region_treats_address_overflow_as_no_fit() {
    let region = ListNode::new(usize::MAX - 63, 63);
    assert_eq!(LinkedListAllocator::alloc_from_region_possible(&region, usize::MAX, 8), Err(()));
    assert_eq!(LinkedListAllocator::alloc_from_region_possible(&region, 32, 4096), Err(()));
    assert_eq!(LinkedListAllocator::alloc_from_region_possible(&region, 63, 8), Ok(usize::MAX - 63));
}

#[test]
fn find_region_takes_the_first_fit() {
    let mut a = heap(1024);
    // Three blocks, given back so that the list reads: third, first, rest.
    let first = a.allocate(64, 8).unwrap();
    let second = a.allocate(128, 8).unwrap();
    let third = a.allocate(32, 8).unwrap();
    assert_eq!((first, second, third), (HEAP_START, HEAP_START + 64, HEAP_START + 192));
    a.deallocate(second, 128, 8);
    a.deallocate(third, 32, 8);
    a.deallocate(first, 64, 8);
    // The list reads: first (64), third (32), second (128), rest (800).
    let (node, start) = a.find_region(128, 8).unwrap();
    assert_eq!((node.start_addr(), node.size(), start), (second, 128, second));
    assert_eq!(
        drain(&mut a),
        vec![(first, 64), (third, 32), (HEAP_START + 224, 800)]
    );
}

#[test]
fn find_region_without_a_fit_changes_nothing() {
    let mut a = heap(256);
    assert!(a.find_region(257, 8).is_none());
    assert!(a.find_region(248, 8).is_none());
    assert_eq!(drain(&mut a), vec![(HEAP_START, 256)]);
}

#[test]
fn add_free_region_goes_to_the_front() {
    let mut a = heap(1024);
    let (node, _) = a.find_region(1024, 8).unwrap();
    assert_eq!(node.size(), 1024);
    a.add_free_region(HEAP_START, 512);
    a.add_free_region(HEAP_START + 512, 512);
    assert_eq!(
        drain(&mut a),
        vec![(HEAP_START + 512, 512), (HEAP_START, 512)]
    );
}

#[test]
fn first_allocation_lies_in_the_heap() {
    for align in [1usize, 2, 4, 8, 16, 32, 64, 128, 256] {
        for size in [1usize, 7, 16, 100, 512] {
            let mut a = heap(4096);
            let addr = a.allocate(size, align).unwrap();
            assert!(HEAP_START <= addr && addr < HEAP_START + 4096);
            assert_eq!(addr % align, 0);
            assert_eq!(addr, HEAP_START);
        }
    }
}

#[test]
fn first_allocation_fails_where_the_leftover_is_too_small() {
    // One byte is asked for, 24 are there: the block takes 16 and the 8 that
    // would be left cannot carry a record.
    let mut a = heap(24);
    assert_eq!(a.allocate(1, 8), None);
    assert_eq!(drain(&mut a), vec![(HEAP_START, 24)]);
}

#[test]
fn allocation_splits_the_region() {
    let mut a = heap(1024);
    assert_eq!(a.allocate(100, 8), Some(HEAP_START));
    assert_eq!(drain(&mut a), vec![(HEAP_START + 104, 920)]);
}

#[test]
fn allocation_of_a_whole_region_leaves_nothing() {
    let mut a = heap(1024);
    assert_eq!(a.allocate(1024, 8), Some(HEAP_START));
    assert_eq!(drain(&mut a), vec![]);
    assert_eq!(a.allocate(1, 1), None);
}

#[test]
fn out_of_memory_changes_nothing() {
    let mut a = heap(1024);
    assert_eq!(a.allocate(2048, 8), None);
    // 1009 bytes take 1016: the 8 bytes left could not carry a record.
    assert_eq!(a.allocate(1009, 8), None);
    assert_eq!(drain(&mut a), vec![(HEAP_START, 1024)]);
}

#[test]
fn freed_block_is_reused() {
    let mut a = heap(1024);
    let first = a.allocate(100, 8).unwrap();
    a.deallocate(first, 100, 8);
    let second = a.allocate(100, 8).unwrap();
    assert_eq!(second, first);
}

#[test]
fn one_byte_reserves_a_record() {
    let mut a = heap(1024);
    let first = a.allocate(1, 1).unwrap();
    let next = a.allocate(1, 1).unwrap();
    assert_eq!(next - first, NODE_SIZE);
    a.deallocate(first, 1, 1);
    assert_eq!(a.allocate(NODE_SIZE, 1), Some(first));
}

#[test]
fn holes_are_never_merged() {
    // Four blocks fill the heap; the first and the third are given back.
    let mut a = heap(256);
    let blocks: Vec<usize> = (0..4).map(|_| a.allocate(64, 8).unwrap()).collect();
    assert_eq!(
        blocks,
        vec![HEAP_START, HEAP_START + 64, HEAP_START + 128, HEAP_START + 192]
    );
    a.deallocate(blocks[0], 64, 8);
    a.deallocate(blocks[2], 64, 8);
    assert_eq!(a.allocate(128, 8), None);
    assert_eq!(a.allocate(200, 8), None);
    // With the second block back too, 192 bytes in a row are free, in three
    // regions of 64 bytes.
    a.deallocate(blocks[1], 64, 8);
    assert_eq!(a.allocate(128, 8), None);
    assert_eq!(a.allocate(200, 8), None);
    assert_eq!(
        drain(&mut a),
        vec![(blocks[1], 64), (blocks[2], 64), (blocks[0], 64)]
    );
}

#[test]
fn holes_are_passed_over_for_the_remainder() {
    // In a heap of 1024 bytes four blocks of 64 leave a region of 768: it is
    // that region, behind the two holes, that serves 200 bytes.
    let mut a = heap(1024);
    let blocks: Vec<usize> = (0..4).map(|_| a.allocate(64, 8).unwrap()).collect();
    a.deallocate(blocks[0], 64, 8);
    a.deallocate(blocks[2], 64, 8);
    assert_eq!(a.allocate(200, 8), Some(HEAP_START + 256));
    // Once the remainder is used up, the two holes serve no such request.
    assert_eq!(a.allocate(568, 8), Some(HEAP_START + 456));
    assert_eq!(a.allocate(200, 8), None);
    assert_eq!(a.allocate(128, 8), None);
    assert_eq!(drain(&mut a), vec![(blocks[2], 64), (blocks[0], 64)]);
}

#[test]
fn every_power_of_two_alignment_is_kept() {
    let mut a = heap(0x10_0000);
    let mut align = 1usize;
    while align <= 8192 {
        for size in [1usize, 24, 100] {
            let addr = a.allocate(size, align).unwrap();
            assert_eq!(addr % align, 0);
        }
        align *= 2;
    }
}

#[test]
fn alignment_gap_is_skipped() {
    let mut a = heap(0x4000);
    assert_eq!(a.allocate(8, 8), Some(HEAP_START));
    // The free region now starts 16 bytes into the heap; a page-aligned
    // block starts at the next page and the region keeps what lies behind.
    assert_eq!(a.allocate(4096, 4096), Some(HEAP_START + 0x1000));
    assert_eq!(drain(&mut a), vec![(HEAP_START + 0x2000, 0x2000)]);
}

#[test]
fn live_blocks_never_overlap() {
    let mut a = heap(4096);
    let requests: [(usize, usize); 8] =
        [(1, 1), (100, 8), (64, 64), (17, 2), (256, 16), (8, 8), (300, 4), (33, 32)];
    let mut live: Vec<(usize, usize, usize, usize)> = Vec::new();
    for round in 0..6 {
        for &(size, align) in requests.iter() {
            if let Some(addr) = a.allocate(size, align) {
                let (reserved, _) = LinkedListAllocator::size_align(size, align);
                assert_eq!(addr % align, 0);
                assert!(HEAP_START <= addr && addr + reserved <= HEAP_START + 4096);
                for &(other, other_reserved, _, _) in live.iter() {
                    assert!(addr + reserved <= other || other + other_reserved <= addr);
                }
                live.push((addr, reserved, size, align));
            }
        }
        // Give back every other block, oldest first.
        let mut kept = Vec::new();
        for (i, block) in live.drain(..).enumerate() {
            if (i + round) % 2 == 0 {
                a.deallocate(block.0, block.2, block.3);
            } else {
                kept.push(block);
            }
        }
        live = kept;
        let in_use: usize = live.iter().map(|b| b.1).sum();
        assert!(in_use <= 4096);
    }
    let in_use: usize = live.iter().map(|b| b.1).sum();
    let free: usize = drain(&mut a).iter().map(|r| r.1).sum();
    assert!(free + in_use <= 4096);
}

#[test]
fn can_adjust_tells_when_the_padded_size_fits() {
    assert!(LinkedListAllocator::can_adjust(0, 1));
    assert!(LinkedListAllocator::can_adjust(100, 8));
    assert!(LinkedListAllocator::can_adjust(usize::MAX - 7, 8));
    assert!(LinkedListAllocator::can_adjust(usize::MAX - 7, 1));
    assert!(!LinkedListAllocator::can_adjust(usize::MAX - 6, 1));
    assert!(!LinkedListAllocator::can_adjust(usize::MAX, 8));
    assert!(!LinkedListAllocator::can_adjust(usize::MAX - 4095, 8192));
}

#[test]
fn adjusted_size_is_a_multiple_of_the_adjusted_alignment() {
    let mut align = 1usize;
    while align <= 4096 {
        for size in 1usize..200 {
            let (s, a) = LinkedListAllocator::size_align(size, align);
            assert_eq!(a, align.max(NODE_ALIGN));
            assert!(s >= size && s >= NODE_SIZE);
            assert_eq!(s % a, 0);
            // Raising first and padding afterwards gives the same.
            let raised = size.max(NODE_SIZE);
            assert_eq!(s, (raised + a - 1) / a * a);
        }
        align *= 2;
    }
}

#[test]
fn long_free_list_is_searched_to_its_end() {
    // Two thousand blocks of 16 bytes, all given back: the list then holds
    // them in front of the rest of the heap, which alone serves 32 bytes.
    let count = 2000;
    let mut a = heap(count * 16 + 64);
    let blocks: Vec<usize> = (0..count).map(|_| a.allocate(16, 8).unwrap()).collect();
    for &block in blocks.iter() {
        a.deallocate(block, 16, 8);
    }
    assert_eq!(a.allocate(32, 8), Some(HEAP_START + count * 16));
    // What the rest of the heap kept is now the first region of the list.
    assert_eq!(a.allocate(32, 8), Some(HEAP_START + count * 16 + 32));
    // The block given back last is the first to be used again.
    assert_eq!(a.allocate(16, 8), Some(blocks[count - 1]));
    assert_eq!(a.allocate(16, 8), Some(blocks[count - 2]));
    let left = drain(&mut a);
    assert_eq!(left.len(), count - 2);
    assert_eq!(left[0], (blocks[count - 3], 16));
    assert_eq!(left[count - 3], (blocks[0], 16));
}

fn is_send<T: Send>() {}

#[test]
fn allocator_can_be_shared_behind_a_lock() {
    is_send::<LinkedListAllocator>();
    let shared = std::sync::Mutex::new(heap(1024));
    let addr = shared.lock().unwrap().allocate(64, 8).unwrap();
    shared.lock().unwrap().deallocate(addr, 64, 8);
    assert_eq!(shared.lock().unwrap().allocate(64, 8), Some(addr));
}
