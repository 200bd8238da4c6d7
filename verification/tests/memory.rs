use clacos::memory::{BootInfoFrameAllocator, MemoryRange, FRAME_SIZE};

fn map() -> Vec<MemoryRange> {
    vec![
        MemoryRange { start: 0, end: 0x1000, usable: false },
        MemoryRange { start: 0x1000, end: 0x4000, usable: true },
        MemoryRange { start: 0x4000, end: 0x8000, usable: false },
        MemoryRange { start: 0x10000, end: 0x10000, usable: true },
        MemoryRange { start: 0x20000, end: 0x22001, usable: true },
    ]
}

#[test]
fn frame_size_is_four_kib() {
    assert_eq!(FRAME_SIZE, 4096);
}

#[test]
fn usable_frames_are_numbered_in_map_order() {
    let a = BootInfoFrameAllocator::init(map());
    assert_eq!(a.usable_frame(0), Some(0x1000));
    assert_eq!(a.usable_frame(1), Some(0x2000));
    assert_eq!(a.usable_frame(2), Some(0x3000));
    assert_eq!(a.usable_frame(3), Some(0x20000));
    assert_eq!(a.usable_frame(4), Some(0x21000));
    // The last entry reaches one byte into a third frame.
    assert_eq!(a.usable_frame(5), Some(0x22000));
    assert_eq!(a.usable_frame(6), None);
    assert_eq!(a.usable_frame(usize::MAX), None);
}

#[test]
fn frames_are_handed_out_one_after_another() {
    let mut a = BootInfoFrameAllocator::init(map());
    let mut got = Vec::new();
    while let Some(frame) = a.allocate_frame() {
        got.push(frame);
    }
    assert_eq!(got, vec![0x1000, 0x2000, 0x3000, 0x20000, 0x21000, 0x22000]);
    assert_eq!(a.allocate_frame(), None);
    assert_eq!(a.allocate_frame(), None);
}

#[test]
fn map_without_usable_memory_has_no_frame() {
    let mut a = BootInfoFrameAllocator::init(vec![
        MemoryRange { start: 0, end: 0x8000, usable: false },
        MemoryRange { start: 0x9000, end: 0x8000, usable: true },
    ]);
    assert_eq!(a.usable_frame(0), None);
    assert_eq!(a.allocate_frame(), None);
    let mut empty = BootInfoFrameAllocator::init(Vec::new());
    assert_eq!(empty.allocate_frame(), None);
}

#[test]
fn frame_near_the_top_of_memory() {
    let a = BootInfoFrameAllocator::init(vec![MemoryRange {
        start: u64::MAX - 0x1fff,
        end: u64::MAX,
        usable: true,
    }]);
    assert_eq!(a.usable_frame(0), Some(u64::MAX - 0x1fff));
    assert_eq!(a.usable_frame(1), Some(u64::MAX - 0xfff));
    assert_eq!(a.usable_frame(2), None);
}
