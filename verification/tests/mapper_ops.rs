use svm_paging::addr::{
    HUGE_PAGE, NO_CACHE, NO_EXECUTE, PRESENT, SIZE_2MIB, SIZE_4KIB, USER_ACCESSIBLE, WRITABLE,
};
use svm_paging::bootinfo::{FrameRange, MemoryMap, MemoryRegion, MemoryRegionType};
use svm_paging::frame_alloc::BootInfoFrameAllocator;
use svm_paging::frame_mapping::{DirectFrameMapping, PageTableFrameMapping};
use svm_paging::mapper::{
    FlagUpdateError, MapToError, MappedPageTable, PageTableWalker, TranslateError,
    TranslateResult, UnmapError,
};
use svm_paging::page::{Page, PageSize, PhysFrame};
use svm_paging::page_table::{PageTable, PageTableEntry};

fn usable_map(start: u64, end: u64) -> MemoryMap {
    let mut map = MemoryMap::new();
    map.add_region(MemoryRegion {
        range: FrameRange::new(start, end),
        region_type: MemoryRegionType::Usable,
    });
    map
}

fn fresh_mapper() -> MappedPageTable<DirectFrameMapping> {
    MappedPageTable::new(PageTable::new(), PageTableWalker::new(DirectFrameMapping::new()))
}

/// An allocator over high memory, so allocated table frames never collide
/// with the low addresses the tests map.
fn fresh_allocator() -> BootInfoFrameAllocator {
    BootInfoFrameAllocator::new(usable_map(0x100_0000, 0x200_0000))
}

#[test]
fn map_4kib_then_translate_reports_frame_and_flags() {
    let mut mapper = fresh_mapper();
    let mut alloc = fresh_allocator();
    let page = Page::from_start_address(0x5000, PageSize::Size4KiB).unwrap();
    let frame = PhysFrame::from_start_address(0x7000, PageSize::Size4KiB).unwrap();
    let flags = PRESENT | WRITABLE;
    let flush = mapper.map_to(page, frame, flags, &mut alloc).unwrap();
    flush.flush();
    match mapper.translate(0x5123) {
        TranslateResult::Mapped { frame: f, offset, flags: fl } => {
            assert_eq!(f, frame);
            assert_eq!(offset, 0x123);
            assert_eq!(fl, flags);
        },
        other => panic!("expected a mapping, got {:?}", other),
    }
}

#[test]
fn map_2mib_then_translate_reports_huge_flags_and_wide_offset() {
    let mut mapper = fresh_mapper();
    let mut alloc = fresh_allocator();
    let page = Page::from_start_address(2 * SIZE_2MIB, PageSize::Size2MiB).unwrap();
    let frame = PhysFrame::from_start_address(3 * SIZE_2MIB, PageSize::Size2MiB).unwrap();
    let flags = PRESENT | WRITABLE | USER_ACCESSIBLE;
    mapper.map_to(page, frame, flags, &mut alloc).unwrap().flush();
    let probe = 2 * SIZE_2MIB + 0x12_3456;
    match mapper.translate(probe) {
        TranslateResult::Mapped { frame: f, offset, flags: fl } => {
            assert_eq!(f, frame);
            // The huge mapping keeps every bit below the huge-page
            // boundary as the offset.
            assert_eq!(offset, 0x12_3456);
            assert_eq!(offset, probe % SIZE_2MIB);
            assert_eq!(fl, flags | HUGE_PAGE);
        },
        other => panic!("expected a mapping, got {:?}", other),
    }
}

#[test]
fn huge_offset_never_includes_index_bits() {
    let mut mapper = fresh_mapper();
    let mut alloc = fresh_allocator();
    // Two huge mappings at different level-2 indices.
    for idx in [4u64, 9u64] {
        let page = Page::from_start_address(idx * SIZE_2MIB, PageSize::Size2MiB).unwrap();
        let frame = PhysFrame::from_start_address(idx * SIZE_2MIB, PageSize::Size2MiB).unwrap();
        mapper.map_to(page, frame, PRESENT, &mut alloc).unwrap().flush();
    }
    let low_bits = 0x1F_F321;
    let o1 = match mapper.translate(4 * SIZE_2MIB + low_bits) {
        TranslateResult::Mapped { offset, .. } => offset,
        other => panic!("expected a mapping, got {:?}", other),
    };
    let o2 = match mapper.translate(9 * SIZE_2MIB + low_bits) {
        TranslateResult::Mapped { offset, .. } => offset,
        other => panic!("expected a mapping, got {:?}", other),
    };
    assert_eq!(o1, low_bits);
    assert_eq!(o2, low_bits);
}

#[test]
fn map_already_mapped_fails_and_keeps_mapping() {
    let mut mapper = fresh_mapper();
    let mut alloc = fresh_allocator();
    let page = Page::from_start_address(0x5000, PageSize::Size4KiB).unwrap();
    let frame = PhysFrame::from_start_address(0x7000, PageSize::Size4KiB).unwrap();
    let frame2 = PhysFrame::from_start_address(0x9000, PageSize::Size4KiB).unwrap();
    mapper.map_to(page, frame, PRESENT | WRITABLE, &mut alloc).unwrap().flush();
    let err = mapper.map_to(page, frame2, PRESENT, &mut alloc).unwrap_err();
    assert_eq!(err, MapToError::PageAlreadyMapped(frame2));
    // The existing mapping's frame and flags are unchanged.
    match mapper.translate(0x5000) {
        TranslateResult::Mapped { frame: f, offset: _, flags: fl } => {
            assert_eq!(f, frame);
            assert_eq!(fl, PRESENT | WRITABLE);
        },
        other => panic!("expected a mapping, got {:?}", other),
    }
}

#[test]
fn unmap_then_translate_reports_not_mapped() {
    let mut mapper = fresh_mapper();
    let mut alloc = fresh_allocator();
    let page = Page::from_start_address(0x5000, PageSize::Size4KiB).unwrap();
    let frame = PhysFrame::from_start_address(0x7000, PageSize::Size4KiB).unwrap();
    mapper.map_to(page, frame, PRESENT, &mut alloc).unwrap().flush();
    let (freed, flush) = mapper.unmap(page).unwrap();
    flush.flush();
    assert_eq!(freed, frame);
    assert!(matches!(mapper.translate(0x5000), TranslateResult::NotMapped));
    // Unmapping again fails and mutates nothing.
    let err = mapper.unmap(page).unwrap_err();
    assert_eq!(err, UnmapError::PageNotMapped);
    assert!(matches!(mapper.translate(0x5000), TranslateResult::NotMapped));
}

#[test]
fn unmap_never_mapped_page_fails() {
    let mut mapper = fresh_mapper();
    let page = Page::from_start_address(0x4_0000_0000, PageSize::Size4KiB).unwrap();
    assert_eq!(mapper.unmap(page).unwrap_err(), UnmapError::PageNotMapped);
}

#[test]
fn unmap_size_mismatch_reports_parent_huge() {
    let mut mapper = fresh_mapper();
    let mut alloc = fresh_allocator();
    // A huge mapping, unmapped with a terminal-size request.
    let huge_page = Page::from_start_address(SIZE_2MIB, PageSize::Size2MiB).unwrap();
    let huge_frame = PhysFrame::from_start_address(SIZE_2MIB, PageSize::Size2MiB).unwrap();
    mapper.map_to(huge_page, huge_frame, PRESENT, &mut alloc).unwrap().flush();
    let small = Page::from_start_address(SIZE_2MIB, PageSize::Size4KiB).unwrap();
    assert_eq!(mapper.unmap(small).unwrap_err(), UnmapError::ParentEntryHugePage);
    // A terminal mapping, unmapped with a huge-size request.
    let page = Page::from_start_address(4 * SIZE_2MIB, PageSize::Size4KiB).unwrap();
    let frame = PhysFrame::from_start_address(0x7000, PageSize::Size4KiB).unwrap();
    mapper.map_to(page, frame, PRESENT, &mut alloc).unwrap().flush();
    let huge = Page::from_start_address(4 * SIZE_2MIB, PageSize::Size2MiB).unwrap();
    assert_eq!(mapper.unmap(huge).unwrap_err(), UnmapError::ParentEntryHugePage);
}

#[test]
fn unmap_misaligned_huge_entry_reports_invalid_frame_address() {
    // A huge entry whose address is page aligned but not huge aligned can
    // only come from a hand-built table; the unmap must classify it as
    // corruption, not absence.
    let mut l2 = PageTable::new();
    let mut entry = PageTableEntry::new();
    entry.set_addr(0x7000, PRESENT | HUGE_PAGE);
    l2.set_entry(3, entry);
    let mut mapper = MappedPageTable::new(l2, PageTableWalker::new(DirectFrameMapping::new()));
    let huge = Page::from_start_address(3 * SIZE_2MIB, PageSize::Size2MiB).unwrap();
    assert_eq!(mapper.unmap(huge).unwrap_err(), UnmapError::InvalidFrameAddress(0x7000));
}

#[test]
fn map_4kib_under_huge_mapping_reports_parent_huge() {
    let mut mapper = fresh_mapper();
    let mut alloc = fresh_allocator();
    let huge_page = Page::from_start_address(SIZE_2MIB, PageSize::Size2MiB).unwrap();
    let huge_frame = PhysFrame::from_start_address(SIZE_2MIB, PageSize::Size2MiB).unwrap();
    mapper.map_to(huge_page, huge_frame, PRESENT, &mut alloc).unwrap().flush();
    let small = Page::from_start_address(SIZE_2MIB + SIZE_4KIB, PageSize::Size4KiB).unwrap();
    let frame = PhysFrame::from_start_address(0x7000, PageSize::Size4KiB).unwrap();
    let err = mapper.map_to(small, frame, PRESENT, &mut alloc).unwrap_err();
    assert_eq!(err, MapToError::ParentEntryHugePage);
}

#[test]
fn map_without_free_frames_reports_allocation_failure() {
    let mut mapper = fresh_mapper();
    // An allocator over an empty memory map has nothing to hand out.
    let mut alloc = BootInfoFrameAllocator::new(MemoryMap::new());
    let page = Page::from_start_address(0x5000, PageSize::Size4KiB).unwrap();
    let frame = PhysFrame::from_start_address(0x7000, PageSize::Size4KiB).unwrap();
    let err = mapper.map_to(page, frame, PRESENT, &mut alloc).unwrap_err();
    assert_eq!(err, MapToError::FrameAllocationFailed);
}

#[test]
fn update_flags_changes_translation_flags() {
    let mut mapper = fresh_mapper();
    let mut alloc = fresh_allocator();
    let page = Page::from_start_address(0x5000, PageSize::Size4KiB).unwrap();
    let frame = PhysFrame::from_start_address(0x7000, PageSize::Size4KiB).unwrap();
    mapper.map_to(page, frame, PRESENT, &mut alloc).unwrap().flush();
    mapper.update_flags(page, PRESENT | WRITABLE | NO_CACHE).unwrap().flush();
    match mapper.translate(0x5000) {
        TranslateResult::Mapped { frame: f, offset: _, flags: fl } => {
            assert_eq!(f, frame);
            assert_eq!(fl, PRESENT | WRITABLE | NO_CACHE);
        },
        other => panic!("expected a mapping, got {:?}", other),
    }
}

#[test]
fn update_flags_is_not_a_create_operation() {
    let mut mapper = fresh_mapper();
    let page = Page::from_start_address(0x5000, PageSize::Size4KiB).unwrap();
    let err = mapper.update_flags(page, PRESENT).unwrap_err();
    assert_eq!(err, FlagUpdateError::PageNotMapped);
    let huge = Page::from_start_address(SIZE_2MIB, PageSize::Size2MiB).unwrap();
    let err = mapper.update_flags(huge, PRESENT).unwrap_err();
    assert_eq!(err, FlagUpdateError::PageNotMapped);
}

#[test]
fn update_flags_forces_huge_bit_back_in() {
    let mut mapper = fresh_mapper();
    let mut alloc = fresh_allocator();
    let page = Page::from_start_address(SIZE_2MIB, PageSize::Size2MiB).unwrap();
    let frame = PhysFrame::from_start_address(SIZE_2MIB, PageSize::Size2MiB).unwrap();
    mapper.map_to(page, frame, PRESENT | WRITABLE, &mut alloc).unwrap().flush();
    mapper.update_flags(page, PRESENT | NO_EXECUTE).unwrap().flush();
    match mapper.translate(SIZE_2MIB) {
        TranslateResult::Mapped { frame: f, offset: _, flags: fl } => {
            assert_eq!(f, frame);
            assert_eq!(fl, PRESENT | NO_EXECUTE | HUGE_PAGE);
        },
        other => panic!("expected a mapping, got {:?}", other),
    }
}

#[test]
fn set_flags_p2_entry_requires_used_entry() {
    let mut mapper = fresh_mapper();
    let page = Page::from_start_address(0x5000, PageSize::Size4KiB).unwrap();
    let err = mapper.set_flags_p2_entry(page, PRESENT).unwrap_err();
    assert_eq!(err, FlagUpdateError::PageNotMapped);
}

#[test]
fn set_flags_p2_entry_rewrites_level_2_flags() {
    let mut mapper = fresh_mapper();
    let mut alloc = fresh_allocator();
    let page = Page::from_start_address(SIZE_2MIB, PageSize::Size2MiB).unwrap();
    let frame = PhysFrame::from_start_address(SIZE_2MIB, PageSize::Size2MiB).unwrap();
    mapper.map_to(page, frame, PRESENT | WRITABLE, &mut alloc).unwrap().flush();
    mapper.set_flags_p2_entry(page, PRESENT).unwrap().flush_all();
    match mapper.translate(SIZE_2MIB) {
        TranslateResult::Mapped { frame: f, offset: _, flags: fl } => {
            assert_eq!(f, frame);
            assert_eq!(fl, PRESENT | HUGE_PAGE);
        },
        other => panic!("expected a mapping, got {:?}", other),
    }
}

#[test]
fn translate_page_matches_request_size() {
    let mut mapper = fresh_mapper();
    let mut alloc = fresh_allocator();
    let page = Page::from_start_address(0x5000, PageSize::Size4KiB).unwrap();
    let frame = PhysFrame::from_start_address(0x7000, PageSize::Size4KiB).unwrap();
    mapper.map_to(page, frame, PRESENT, &mut alloc).unwrap().flush();
    assert_eq!(mapper.translate_page(page).unwrap(), frame);
    let huge = Page::from_start_address(SIZE_2MIB, PageSize::Size2MiB).unwrap();
    assert_eq!(mapper.translate_page(huge).unwrap_err(), TranslateError::PageNotMapped);
}

#[test]
fn translate_page_classifies_walk_failures() {
    let mut mapper = fresh_mapper();
    let mut alloc = fresh_allocator();
    // A huge mapping, walked with a terminal-size request.
    let huge_page = Page::from_start_address(SIZE_2MIB, PageSize::Size2MiB).unwrap();
    let huge_frame = PhysFrame::from_start_address(SIZE_2MIB, PageSize::Size2MiB).unwrap();
    mapper.map_to(huge_page, huge_frame, PRESENT, &mut alloc).unwrap().flush();
    let small = Page::from_start_address(SIZE_2MIB, PageSize::Size4KiB).unwrap();
    assert_eq!(mapper.translate_page(small).unwrap_err(), TranslateError::ParentEntryHugePage);
    // A hand-built huge entry whose address is not huge aligned.
    let mut l2 = PageTable::new();
    let mut entry = PageTableEntry::new();
    entry.set_addr(0x7000, PRESENT | HUGE_PAGE);
    l2.set_entry(3, entry);
    let crooked = MappedPageTable::new(l2, PageTableWalker::new(DirectFrameMapping::new()));
    let probe = Page::from_start_address(3 * SIZE_2MIB, PageSize::Size2MiB).unwrap();
    assert_eq!(
        crooked.translate_page(probe).unwrap_err(),
        TranslateError::InvalidFrameAddress(0x7000)
    );
}

#[test]
fn update_flags_size_mismatch_reports_parent_huge() {
    let mut mapper = fresh_mapper();
    let mut alloc = fresh_allocator();
    let huge_page = Page::from_start_address(SIZE_2MIB, PageSize::Size2MiB).unwrap();
    let huge_frame = PhysFrame::from_start_address(SIZE_2MIB, PageSize::Size2MiB).unwrap();
    mapper.map_to(huge_page, huge_frame, PRESENT, &mut alloc).unwrap().flush();
    let small = Page::from_start_address(SIZE_2MIB, PageSize::Size4KiB).unwrap();
    let err = mapper.update_flags(small, PRESENT | WRITABLE).unwrap_err();
    assert_eq!(err, FlagUpdateError::ParentEntryHugePage);
}

#[test]
fn entry_packs_address_and_flags_losslessly() {
    let mut entry = PageTableEntry::new();
    assert!(entry.is_unused());
    entry.set_addr(0x1234_5000, PRESENT | WRITABLE | NO_EXECUTE);
    assert_eq!(entry.addr(), 0x1234_5000);
    assert_eq!(entry.flags(), PRESENT | WRITABLE | NO_EXECUTE);
    entry.set_flags(PRESENT);
    assert_eq!(entry.addr(), 0x1234_5000);
    assert_eq!(entry.flags(), PRESENT);
    entry.set_unused();
    assert!(entry.is_unused());
}

#[test]
fn level_2_table_exposes_written_entries() {
    let mut mapper = fresh_mapper();
    let mut alloc = fresh_allocator();
    let page = Page::from_start_address(SIZE_2MIB, PageSize::Size2MiB).unwrap();
    let frame = PhysFrame::from_start_address(SIZE_2MIB, PageSize::Size2MiB).unwrap();
    mapper.map_to(page, frame, PRESENT, &mut alloc).unwrap().flush();
    let entry = mapper.level_2_table().entry(1);
    assert_eq!(entry.addr(), SIZE_2MIB);
    assert_eq!(entry.flags(), PRESENT | HUGE_PAGE);
}

#[test]
fn misaligned_start_addresses_are_refused() {
    assert!(PhysFrame::from_start_address(0x123, PageSize::Size4KiB).is_err());
    assert!(PhysFrame::from_start_address(0x1000, PageSize::Size2MiB).is_err());
    assert!(Page::from_start_address(0x1000, PageSize::Size4KiB).is_ok());
    let frame = PhysFrame::containing_address(0x1234, PageSize::Size4KiB);
    assert_eq!(frame.start_address(), 0x1000);
    let page = Page::containing_address(0x20_1234, PageSize::Size2MiB);
    assert_eq!(page.start_address(), 0x20_0000);
}

#[test]
fn frame_mapping_tracks_inserted_tables() {
    let mut mapping = DirectFrameMapping::new();
    assert!(!mapping.contains_table(0x4000));
    mapping.insert_table(0x4000);
    assert!(mapping.contains_table(0x4000));
    assert!(mapping.table_entry(0x4000, 0).is_unused());
}
