use svm_paging::bootinfo::{
    BootInfo, Core, Cores, FrameRange, MemoryMap, MemoryRegion, MemoryRegionType,
};
use svm_paging::frame_alloc::BootInfoFrameAllocator;
use svm_paging::page::PageSize;

const MIB: u64 = 0x10_0000;

fn one_usable_region(start: u64, end: u64) -> MemoryMap {
    let mut map = MemoryMap::new();
    map.add_region(MemoryRegion {
        range: FrameRange::new(start, end),
        region_type: MemoryRegionType::Usable,
    });
    map
}

#[test]
fn ten_mib_yields_2560_increasing_page_frames_then_exhaustion() {
    let mut alloc = BootInfoFrameAllocator::new(one_usable_region(0, 10 * MIB));
    let mut last: Option<u64> = None;
    for _ in 0..2560 {
        let frame = alloc.allocate_frame(PageSize::Size4KiB).unwrap();
        let addr = frame.start_address();
        assert_eq!(addr % 4096, 0);
        if let Some(prev) = last {
            assert!(addr > prev);
        }
        last = Some(addr);
    }
    assert!(alloc.allocate_frame(PageSize::Size4KiB).is_none());
    assert!(alloc.allocate_frame(PageSize::Size4KiB).is_none());
}

#[test]
fn ten_mib_yields_exactly_five_huge_frames() {
    let mut alloc = BootInfoFrameAllocator::new(one_usable_region(0, 10 * MIB));
    let mut seen = Vec::new();
    for _ in 0..5 {
        let frame = alloc.allocate_frame(PageSize::Size2MiB).unwrap();
        let addr = frame.start_address();
        assert_eq!(addr % 0x20_0000, 0);
        assert!(!seen.contains(&addr));
        seen.push(addr);
    }
    assert!(alloc.allocate_frame(PageSize::Size2MiB).is_none());
}

#[test]
fn regions_are_shrunk_to_aligned_bounds() {
    // [1 MiB, 9.5 MiB) rounded to 2 MiB bounds becomes [2 MiB, 8 MiB):
    // three huge frames, none protruding past the region.
    let mut alloc = BootInfoFrameAllocator::new(one_usable_region(MIB, 9 * MIB + MIB / 2));
    for expected in [2 * MIB, 4 * MIB, 6 * MIB] {
        let frame = alloc.allocate_frame(PageSize::Size2MiB).unwrap();
        assert_eq!(frame.start_address(), expected);
    }
    assert!(alloc.allocate_frame(PageSize::Size2MiB).is_none());
}

#[test]
fn non_usable_regions_contribute_no_frames() {
    let mut map = MemoryMap::new();
    map.add_region(MemoryRegion {
        range: FrameRange::new(0, 2 * MIB),
        region_type: MemoryRegionType::Reserved,
    });
    map.add_region(MemoryRegion {
        range: FrameRange::new(2 * MIB, 4 * MIB),
        region_type: MemoryRegionType::Usable,
    });
    map.add_region(MemoryRegion {
        range: FrameRange::new(4 * MIB, 6 * MIB),
        region_type: MemoryRegionType::Kernel,
    });
    let mut alloc = BootInfoFrameAllocator::new(map);
    let first = alloc.allocate_frame(PageSize::Size4KiB).unwrap();
    assert_eq!(first.start_address(), 2 * MIB);
}

#[test]
fn mixed_size_allocations_never_reuse_memory() {
    let mut alloc = BootInfoFrameAllocator::new(one_usable_region(0, 10 * MIB));
    let small = alloc.allocate_frame(PageSize::Size4KiB).unwrap();
    assert_eq!(small.start_address(), 0);
    // The huge request takes the first huge frame the cursor has not yet
    // entered, never re-covering the page already handed out.
    let huge = alloc.allocate_frame(PageSize::Size2MiB).unwrap();
    assert_eq!(huge.start_address(), 2 * MIB);
    // The cursor has moved past the whole huge frame, so the next
    // terminal-size request continues behind it.
    let next_small = alloc.allocate_frame(PageSize::Size4KiB).unwrap();
    assert_eq!(next_small.start_address(), 4 * MIB);
}

#[test]
fn huge_request_clears_earlier_page_frames_on_unaligned_maps() {
    // A small region followed by one whose start is page- but not
    // huge-aligned relative to the handed-out count: the huge request
    // must still land wholly past everything handed out before it.
    let mut map = MemoryMap::new();
    map.add_region(MemoryRegion {
        range: FrameRange::new(0, MIB),
        region_type: MemoryRegionType::Usable,
    });
    map.add_region(MemoryRegion {
        range: FrameRange::new(2 * MIB, 8 * MIB),
        region_type: MemoryRegionType::Usable,
    });
    let mut alloc = BootInfoFrameAllocator::new(map);
    let mut handed = Vec::new();
    for _ in 0..300 {
        handed.push(alloc.allocate_frame(PageSize::Size4KiB).unwrap().start_address());
    }
    let huge = alloc.allocate_frame(PageSize::Size2MiB).unwrap().start_address();
    assert_eq!(huge, 4 * MIB);
    for addr in handed {
        assert!(addr + 4096 <= huge);
    }
}

#[test]
fn shared_cursor_advances_by_size_ratio() {
    let mut alloc = BootInfoFrameAllocator::new(one_usable_region(0, 10 * MIB));
    // One huge allocation advances the cursor by a full size ratio, so
    // the next page-sized frame continues past position 512.
    let huge = alloc.allocate_frame(PageSize::Size2MiB).unwrap();
    assert_eq!(huge.start_address(), 0);
    let next = alloc.allocate_frame(PageSize::Size4KiB).unwrap();
    assert_eq!(next.start_address(), 512 * 4096);
}

#[test]
fn usable_frames_indexes_the_frame_sequence() {
    let alloc = BootInfoFrameAllocator::new(one_usable_region(0, 10 * MIB));
    assert_eq!(alloc.usable_frames(PageSize::Size4KiB, 0).unwrap().start_address(), 0);
    assert_eq!(alloc.usable_frames(PageSize::Size4KiB, 7).unwrap().start_address(), 7 * 4096);
    assert_eq!(alloc.usable_frames(PageSize::Size4KiB, 2559).unwrap().start_address(), 10 * MIB - 4096);
    assert!(alloc.usable_frames(PageSize::Size4KiB, 2560).is_none());
    assert_eq!(alloc.usable_frames(PageSize::Size2MiB, 4).unwrap().start_address(), 8 * MIB);
    assert!(alloc.usable_frames(PageSize::Size2MiB, 5).is_none());
}

#[test]
fn get_region_by_addr_finds_the_containing_region() {
    let mut map = MemoryMap::new();
    map.add_region(MemoryRegion {
        range: FrameRange::new(0, MIB),
        region_type: MemoryRegionType::Reserved,
    });
    map.add_region(MemoryRegion {
        range: FrameRange::new(MIB, 4 * MIB),
        region_type: MemoryRegionType::Usable,
    });
    let reserved = map.get_region_by_addr(0x1234).unwrap();
    assert_eq!(reserved.region_type, MemoryRegionType::Reserved);
    let usable = map.get_region_by_addr(2 * MIB).unwrap();
    assert_eq!(usable.region_type, MemoryRegionType::Usable);
    assert!(map.get_region_by_addr(5 * MIB).is_none());
}

#[test]
fn boot_info_starts_zeroed() {
    let info = BootInfo::new();
    assert_eq!(info.memory_map.len(), 0);
    assert_eq!(info.smp_trampoline, 0);
    assert_eq!(info.physical_memory_offset, 0);
    assert_eq!(info.page_table_addr, 0);
    assert_eq!(info.kernel_entry_addr, 0);
    assert_eq!(info.max_phys_memory, 0);
    assert_eq!(info.cores.num_cores, 0);
    // Every core slot starts out as the empty record.
    assert_eq!(info.cores.cores.len(), 256);
    for core in &info.cores.cores {
        assert_eq!(*core, Core::empty());
    }
}

#[test]
fn cores_table_starts_empty() {
    let cores = Cores::empty();
    assert_eq!(cores.num_cores, 0);
    assert_eq!(cores.cores.len(), 256);
    let core = Core::empty();
    assert_eq!(core.stack_start_addr, 0);
    assert_eq!(core.stack_end_addr, 0);
    assert_eq!(core.stack_size, 0);
}

#[test]
fn frame_range_measures_its_size() {
    let range = FrameRange::new(0x1000, 0x5000);
    assert_eq!(range.size(), 0x4000);
    assert_eq!(range.start_addr, 0x1000);
    assert_eq!(range.end_addr, 0x5000);
}
