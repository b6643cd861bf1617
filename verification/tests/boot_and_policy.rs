use svm_paging::addr::{HUGE_PAGE, NO_CACHE, NO_EXECUTE, PRESENT, SIZE_2MIB, WRITABLE};
use svm_paging::bootinfo::{BootInfo, FrameRange, MemoryRegion, MemoryRegionType};
use svm_paging::bootstrap::{generate_page_table, ONE_GIG, TWO_MEG, VGA_ADDR};
use svm_paging::frame_alloc::BootInfoFrameAllocator;
use svm_paging::frame_mapping::DirectFrameMapping;
use svm_paging::mapper::{MappedPageTable, PageTableWalker, TranslateResult};
use svm_paging::memory::{
    id_map, id_map_nocache, id_map_nocache_update_flags, id_map_range, IdMapError,
};
use svm_paging::page::{PageSize, PhysFrame};
use svm_paging::page_table::PageTable;

fn fresh_mapper() -> MappedPageTable<DirectFrameMapping> {
    MappedPageTable::new(PageTable::new(), PageTableWalker::new(DirectFrameMapping::new()))
}

fn fresh_allocator() -> BootInfoFrameAllocator {
    let mut info = BootInfo::new();
    info.memory_map.add_region(MemoryRegion {
        range: FrameRange::new(0x100_0000, 0x200_0000),
        region_type: MemoryRegionType::Usable,
    });
    BootInfoFrameAllocator::new(info.memory_map)
}

#[test]
fn id_map_creates_then_validates_superset_flags() {
    let mut mapper = fresh_mapper();
    let mut alloc = fresh_allocator();
    let frame = PhysFrame::from_start_address(0xb000, PageSize::Size4KiB).unwrap();
    // First request installs present | writable | no-cache.
    let page = id_map(&mut mapper, &mut alloc, frame, Some(WRITABLE | NO_CACHE)).unwrap();
    assert_eq!(page.start_address(), 0xb000);
    // A smaller set is contained in the current flags: accepted.
    id_map(&mut mapper, &mut alloc, frame, Some(WRITABLE)).unwrap();
    id_map(&mut mapper, &mut alloc, frame, None).unwrap();
    // A larger set is not contained: refused, carrying the actual current
    // flags, never the requested ones.
    let err = id_map(&mut mapper, &mut alloc, frame, Some(NO_EXECUTE)).unwrap_err();
    assert_eq!(err, IdMapError::AlreadyMappedDiffFlags(PRESENT | WRITABLE | NO_CACHE));
}

#[test]
fn id_map_rejects_non_identity_mapping() {
    let mut mapper = fresh_mapper();
    let mut alloc = fresh_allocator();
    let page = svm_paging::page::Page::from_start_address(0xb000, PageSize::Size4KiB).unwrap();
    let elsewhere = PhysFrame::from_start_address(0xd000, PageSize::Size4KiB).unwrap();
    mapper.map_to(page, elsewhere, PRESENT, &mut alloc).unwrap().flush();
    let frame = PhysFrame::from_start_address(0xb000, PageSize::Size4KiB).unwrap();
    let err = id_map(&mut mapper, &mut alloc, frame, None).unwrap_err();
    assert_eq!(err, IdMapError::MappingIsNotIdentity(0xb000, 0xd000));
}

#[test]
fn id_map_without_free_frames_fails() {
    let mut mapper = fresh_mapper();
    let mut alloc = BootInfoFrameAllocator::new(svm_paging::bootinfo::MemoryMap::new());
    let frame = PhysFrame::from_start_address(0xb000, PageSize::Size4KiB).unwrap();
    let err = id_map(&mut mapper, &mut alloc, frame, None).unwrap_err();
    assert_eq!(err, IdMapError::FrameAllocationFailed);
}

#[test]
fn id_map_huge_frame_maps_identity_at_level_two() {
    let mut mapper = fresh_mapper();
    let mut alloc = fresh_allocator();
    let frame = PhysFrame::from_start_address(3 * SIZE_2MIB, PageSize::Size2MiB).unwrap();
    id_map(&mut mapper, &mut alloc, frame, Some(WRITABLE)).unwrap();
    match mapper.translate(3 * SIZE_2MIB + 0x42) {
        TranslateResult::Mapped { frame: f, offset, flags } => {
            assert_eq!(f, frame);
            assert_eq!(offset, 0x42);
            assert_eq!(flags, PRESENT | WRITABLE | HUGE_PAGE);
        },
        other => panic!("expected a mapping, got {:?}", other),
    }
}

#[test]
fn id_map_nocache_always_adds_the_no_cache_flag() {
    let mut mapper = fresh_mapper();
    let mut alloc = fresh_allocator();
    let frame = PhysFrame::from_start_address(0xb000, PageSize::Size4KiB).unwrap();
    id_map_nocache(&mut mapper, &mut alloc, frame, Some(WRITABLE)).unwrap();
    match mapper.translate(0xb000) {
        TranslateResult::Mapped { frame: _, offset: _, flags } => {
            assert_eq!(flags, PRESENT | NO_CACHE | WRITABLE);
        },
        other => panic!("expected a mapping, got {:?}", other),
    }
}

#[test]
fn id_map_nocache_update_flags_upgrades_a_lacking_mapping() {
    let mut mapper = fresh_mapper();
    let mut alloc = fresh_allocator();
    let frame = PhysFrame::from_start_address(0xb000, PageSize::Size4KiB).unwrap();
    // Map without the no-cache flag first.
    id_map(&mut mapper, &mut alloc, frame, None).unwrap();
    // The plain no-cache request refuses the lacking mapping …
    let err = id_map_nocache(&mut mapper, &mut alloc, frame, None).unwrap_err();
    assert_eq!(err, IdMapError::AlreadyMappedDiffFlags(PRESENT));
    // … while the upgrading variant catches exactly that refusal and
    // performs the flag update in place.
    id_map_nocache_update_flags(&mut mapper, &mut alloc, frame, None).unwrap();
    match mapper.translate(0xb000) {
        TranslateResult::Mapped { frame: _, offset: _, flags } => {
            assert_eq!(flags, PRESENT | NO_CACHE);
        },
        other => panic!("expected a mapping, got {:?}", other),
    }
}

#[test]
fn id_map_range_covers_a_straddling_object() {
    let mut mapper = fresh_mapper();
    let mut alloc = fresh_allocator();
    // Eight bytes starting just below a page boundary touch two frames.
    id_map_range(&mut mapper, &mut alloc, 0xbffc, 8).unwrap();
    assert!(matches!(mapper.translate(0xbffc), TranslateResult::Mapped { .. }));
    assert!(matches!(mapper.translate(0xc003), TranslateResult::Mapped { .. }));
}

fn boot_info_with_classified_memory() -> BootInfo {
    let mut info = BootInfo::new();
    // First 2 MiB reserved, then usable memory up to 1 GiB, the rest of
    // the first 4 GiB unclassified.
    info.memory_map.add_region(MemoryRegion {
        range: FrameRange::new(0, TWO_MEG),
        region_type: MemoryRegionType::Reserved,
    });
    info.memory_map.add_region(MemoryRegion {
        range: FrameRange::new(TWO_MEG, ONE_GIG),
        region_type: MemoryRegionType::Usable,
    });
    info
}

#[test]
fn bootstrap_maps_usable_memory_writable_and_the_rest_protected() {
    let info = boot_info_with_classified_memory();
    let tables = generate_page_table(0x1000, 0x2000, 0x3000, 0x7000, &info);
    assert_eq!(tables.root_table_addr(), 0x1000);
    let p4 = tables.p4_table();
    assert_eq!(p4.entry(0).addr(), 0x2000);
    assert_eq!(p4.entry(0).flags(), PRESENT | WRITABLE);
    assert!(p4.entry(1).is_unused());
    let p3 = tables.p3_table();
    for g in 0..4 {
        assert_eq!(p3.entry(g).addr(), 0x3000 + (g as u64) * 4096);
        assert_eq!(p3.entry(g).flags(), PRESENT | WRITABLE);
    }
    assert!(p3.entry(4).is_unused());
    // A reserved huge page: present, huge, non-writable, non-executable.
    let reserved = tables.p2_table(0).entry(0);
    assert_eq!(reserved.addr(), 0);
    assert_eq!(reserved.flags(), PRESENT | HUGE_PAGE | NO_EXECUTE);
    // A usable huge page: present, huge, writable, executable.
    let usable = tables.p2_table(0).entry(1);
    assert_eq!(usable.addr(), TWO_MEG);
    assert_eq!(usable.flags(), PRESENT | WRITABLE | HUGE_PAGE);
    // An unclassified huge page is left unmapped.
    assert!(tables.p2_table(1).entry(0).is_unused());
}

#[test]
fn remap_gives_low_pages_their_individual_protections() {
    let info = boot_info_with_classified_memory();
    let mut tables = generate_page_table(0x1000, 0x2000, 0x3000, 0x7000, &info);
    let stack_guard = 0x1_8000;
    let tramp_start = 0x8000;
    let tramp_end = 0xa000;
    tables.remap_first_2mb_with_4kb(0x8000_0, stack_guard, tramp_start, tramp_end);
    // The first huge entry now points at the terminal table.
    let first = tables.p2_table(0).entry(0);
    assert_eq!(first.addr(), 0x8000_0);
    assert_eq!(first.flags(), PRESENT | WRITABLE);
    let p1 = tables.p1_table().unwrap();
    // Address zero: a single page, uncached and non-executable.
    assert_eq!(p1.entry(0).addr(), 0);
    assert_eq!(p1.entry(0).flags(), PRESENT | NO_CACHE | NO_EXECUTE);
    // The stack-guard page is present only, a deliberate canary.
    let guard_index = (stack_guard / 4096) as usize;
    assert_eq!(p1.entry(guard_index).addr(), stack_guard);
    assert_eq!(p1.entry(guard_index).flags(), PRESENT);
    // The trampoline range is writable.
    let tramp_index = (tramp_start / 4096) as usize;
    assert_eq!(p1.entry(tramp_index).flags(), PRESENT | WRITABLE);
    // The legacy video page keeps its fixed flags.
    let vga_index = (VGA_ADDR / 4096) as usize % 512;
    assert_eq!(p1.entry(vga_index).addr(), VGA_ADDR);
    assert_eq!(p1.entry(vga_index).flags(), PRESENT | WRITABLE | NO_CACHE | NO_EXECUTE);
    // A page above the legacy boundary within the low range: plain
    // present.
    let high_index = (0x180000u64 / 4096) as usize;
    assert_eq!(p1.entry(high_index).flags(), PRESENT);
}
