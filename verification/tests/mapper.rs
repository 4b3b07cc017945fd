use rust_os::memory::addr::Page;
use rust_os::memory::addr::PageTableIndex;
use rust_os::memory::addr::PhysAddr;
use rust_os::memory::addr::PhysFrame;
use rust_os::memory::addr::VirtAddr;
use rust_os::memory::create_example_mapping;
use rust_os::memory::init;
use rust_os::memory::mapper::MapToError;
use rust_os::memory::mapper::OffsetPageTable;
use rust_os::memory::translate::TranslateError;
use rust_os::memory::page_table::PageTableEntry;
use rust_os::memory::page_table::PageTableFlags;
use rust_os::memory::translate_addr;
use rust_os::memory::BootInfoFrameAllocator;
use rust_os::memory::EmptyFrameAllocator;
use rust_os::memory::FrameAllocator;
use rust_os::memory::MemoryRegion;

const ROOT: u64 = 0x1000;
const OFFSET: u64 = 0xffff_8000_0000_0000;

fn frame(addr: u64) -> PhysFrame {
    PhysFrame::containing_address(PhysAddr::new(addr))
}

fn page(addr: u64) -> Page {
    Page::containing_address(VirtAddr::new(addr))
}

fn index(i: u16) -> PageTableIndex {
    PageTableIndex::new(i)
}

fn present_writable() -> PageTableFlags {
    PageTableFlags { present: true, writable: true, huge_page: false }
}

fn empty_tables() -> OffsetPageTable {
    init(VirtAddr::new(OFFSET), frame(ROOT))
}

fn frames_from(start: u64, count: u64) -> [MemoryRegion; 1] {
    [MemoryRegion {
        start: PhysAddr::new(start),
        end: PhysAddr::new(start + 4096 * count),
        usable: true,
    }]
}

#[test]
fn nothing_is_mapped_in_new_tables() {
    let tables = empty_tables();
    assert_eq!(tables.level_4_frame(), frame(ROOT));
    assert_eq!(tables.phys_offset(), VirtAddr::new(OFFSET));
    for addr in [0u64, 0xb8000, 0x7777_7777_7777, u64::MAX] {
        assert_eq!(tables.translate_addr(VirtAddr::new(addr)), Err(TranslateError::Unmapped));
        assert_eq!(translate_addr(VirtAddr::new(addr), &tables), None);
    }
}

#[test]
fn a_frame_is_reached_at_the_offset() {
    let tables = empty_tables();
    assert_eq!(tables.frame_address(frame(0)), Some(VirtAddr::new(OFFSET)));
    assert_eq!(tables.frame_address(frame(0xb8000)), Some(VirtAddr::new(OFFSET + 0xb8000)));
    assert_eq!(
        tables.frame_address(frame(0x7fff_ffff_f000)),
        Some(VirtAddr::new(0xffff_ffff_ffff_f000))
    );
    assert_eq!(tables.frame_address(frame(0x8000_0000_0000)), None);
}

#[test]
fn a_mapped_page_translates_to_its_frame() {
    let mut tables = empty_tables();
    let allocator_map = frames_from(0x10_0000, 8);
    let mut allocator = BootInfoFrameAllocator::init(&allocator_map);
    let mapped = tables.map_to(page(0xdead_beaf_000), frame(0xb8000), present_writable(), &mut allocator);
    assert_eq!(mapped.map(|flush| flush.flush()), Ok(page(0xdead_beaf_000)));
    for offset in [0u64, 1, 0x190, 0xc80, 0xfff] {
        assert_eq!(
            tables.translate_addr(VirtAddr::new(0xdead_beaf_000 + offset)),
            Ok(PhysAddr::new(0xb8000 + offset))
        );
        assert_eq!(
            translate_addr(VirtAddr::new(0xdead_beaf_000 + offset), &tables),
            Some(PhysAddr::new(0xb8000 + offset))
        );
    }
}

#[test]
fn the_pages_next_to_a_mapped_page_are_not_mapped() {
    let mut tables = empty_tables();
    let allocator_map = frames_from(0x10_0000, 8);
    let mut allocator = BootInfoFrameAllocator::init(&allocator_map);
    assert!(tables.map_to(page(0xdead_beaf_000), frame(0xb8000), present_writable(), &mut allocator).is_ok());
    for addr in [0xdead_beae_fffu64, 0xdead_beb0_000, 0xdead_bfaf_000, 0xdeed_beaf_000, 0x5ead_beaf_000] {
        assert_eq!(tables.translate_addr(VirtAddr::new(addr)), Err(TranslateError::Unmapped));
    }
}

#[test]
fn mapping_makes_the_three_tables_that_are_missing() {
    let mut tables = empty_tables();
    let allocator_map = frames_from(0x10_0000, 8);
    let mut allocator = BootInfoFrameAllocator::init(&allocator_map);
    assert!(tables.map_to(page(0xdead_beaf_000), frame(0xb8000), present_writable(), &mut allocator).is_ok());
    assert_eq!(tables.entry(frame(ROOT), index(27)).bits(), 0x10_0003);
    assert_eq!(tables.entry(frame(0x10_0000), index(427)).bits(), 0x10_1003);
    assert_eq!(tables.entry(frame(0x10_1000), index(223)).bits(), 0x10_2003);
    assert_eq!(tables.entry(frame(0x10_2000), index(175)).bits(), 0xb8003);
    assert_eq!(allocator.allocate_frame(), Some(frame(0x10_3000)));
}

#[test]
fn a_second_page_under_the_same_tables_takes_no_frame() {
    let mut tables = empty_tables();
    let allocator_map = frames_from(0x10_0000, 3);
    let mut allocator = BootInfoFrameAllocator::init(&allocator_map);
    assert!(tables.map_to(page(0xdead_beaf_000), frame(0xb8000), present_writable(), &mut allocator).is_ok());
    assert!(tables.map_to(page(0xdead_beb0_000), frame(0xb9000), present_writable(), &mut allocator).is_ok());
    assert_eq!(tables.translate_addr(VirtAddr::new(0xdead_beb0_010)), Ok(PhysAddr::new(0xb9010)));
    assert_eq!(tables.translate_addr(VirtAddr::new(0xdead_beaf_010)), Ok(PhysAddr::new(0xb8010)));
    assert_eq!(allocator.allocate_frame(), None);
}

#[test]
fn mapping_a_page_twice_is_a_collision() {
    let mut tables = empty_tables();
    let allocator_map = frames_from(0x10_0000, 8);
    let mut allocator = BootInfoFrameAllocator::init(&allocator_map);
    assert!(tables.map_to(page(0x4000), frame(0xb8000), present_writable(), &mut allocator).is_ok());
    let again = tables.map_to(page(0x4000), frame(0xc0000), present_writable(), &mut allocator);
    assert_eq!(again.map(|flush| flush.flush()), Err(MapToError::PageAlreadyMapped(frame(0xc0000))));
    assert_eq!(tables.translate_addr(VirtAddr::new(0x4000)), Ok(PhysAddr::new(0xb8000)));
    assert_eq!(allocator.allocate_frame(), Some(frame(0x10_3000)));
}

#[test]
fn mapping_without_frames_fails() {
    let mut tables = empty_tables();
    let mut allocator = EmptyFrameAllocator;
    let mapped = tables.map_to(page(0x4000), frame(0xb8000), present_writable(), &mut allocator);
    assert_eq!(mapped.map(|flush| flush.flush()), Err(MapToError::FrameAllocationFailed));
    assert_eq!(tables.translate_addr(VirtAddr::new(0x4000)), Err(TranslateError::Unmapped));
    assert!(tables.entry(frame(ROOT), index(0)).is_unused());
}

#[test]
fn tables_made_before_a_failure_stay() {
    let mut tables = empty_tables();
    let allocator_map = frames_from(0x10_0000, 2);
    let mut allocator = BootInfoFrameAllocator::init(&allocator_map);
    let mapped = tables.map_to(page(0x4000), frame(0xb8000), present_writable(), &mut allocator);
    assert_eq!(mapped.map(|flush| flush.flush()), Err(MapToError::FrameAllocationFailed));
    assert_eq!(tables.entry(frame(ROOT), index(0)).bits(), 0x10_0003);
    assert_eq!(tables.entry(frame(0x10_0000), index(0)).bits(), 0x10_1003);
    assert!(tables.entry(frame(0x10_1000), index(0)).is_unused());
    assert_eq!(allocator.allocate_frame(), None);
    let more_map = frames_from(0x20_0000, 1);
    let mut more = BootInfoFrameAllocator::init(&more_map);
    assert!(tables.map_to(page(0x4000), frame(0xb8000), present_writable(), &mut more).is_ok());
    assert_eq!(tables.translate_addr(VirtAddr::new(0x4321)), Ok(PhysAddr::new(0xb8321)));
    assert_eq!(more.allocate_frame(), None);
}

#[test]
fn mapping_below_a_huge_page_fails() {
    let mut tables = empty_tables();
    tables.set_entry(frame(ROOT), index(0), PageTableEntry::from_bits(0x4000_0083));
    let allocator_map = frames_from(0x10_0000, 8);
    let mut allocator = BootInfoFrameAllocator::init(&allocator_map);
    let mapped = tables.map_to(page(0x4000), frame(0xb8000), present_writable(), &mut allocator);
    assert_eq!(mapped.map(|flush| flush.flush()), Err(MapToError::ParentEntryHugePage));
    assert_eq!(allocator.allocate_frame(), Some(frame(0x10_0000)));
}

#[test]
fn translation_through_a_huge_page_is_not_supported() {
    let mut tables = empty_tables();
    tables.set_entry(frame(ROOT), index(1), PageTableEntry::from_bits(0x2003));
    tables.set_entry(frame(0x2000), index(2), PageTableEntry::from_bits(0x4000_0083));
    let addr = VirtAddr::new((1 << 39) | (2 << 30) | 0x1234);
    assert_eq!(tables.translate_addr(addr), Err(TranslateError::UnsupportedMapping));
}

#[test]
fn an_entry_that_is_not_present_ends_the_walk_at_every_level() {
    let addr = VirtAddr::new((5 << 39) | (6 << 30) | (7 << 21) | (8 << 12) | 0x9);
    let links: [(u64, u16, u64); 4] =
        [(ROOT, 5, 0x2003), (0x2000, 6, 0x3003), (0x3000, 7, 0x4003), (0x4000, 8, 0x5003)];
    for missing in 0..4 {
        let mut tables = empty_tables();
        for (level, (table, i, bits)) in links.iter().enumerate() {
            let bits = if level == missing { bits & !1 } else { *bits };
            tables.set_entry(frame(*table), index(*i), PageTableEntry::from_bits(bits));
        }
        assert_eq!(tables.translate_addr(addr), Err(TranslateError::Unmapped));
        assert_eq!(translate_addr(addr, &tables), None);
    }
    let mut tables = empty_tables();
    for (table, i, bits) in links {
        tables.set_entry(frame(table), index(i), PageTableEntry::from_bits(bits));
    }
    assert_eq!(tables.translate_addr(addr), Ok(PhysAddr::new(0x5009)));
}

#[test]
fn stale_tables_below_an_entry_that_is_not_present_are_not_used() {
    let mut tables = empty_tables();
    let allocator_map = frames_from(0x10_0000, 8);
    let mut allocator = BootInfoFrameAllocator::init(&allocator_map);
    assert!(tables.map_to(page(0x4000), frame(0xb8000), present_writable(), &mut allocator).is_ok());
    assert_eq!(tables.translate_addr(VirtAddr::new(0x4000)), Ok(PhysAddr::new(0xb8000)));
    tables.set_entry(frame(ROOT), index(0), PageTableEntry::from_bits(0x10_0002));
    assert_eq!(tables.translate_addr(VirtAddr::new(0x4000)), Err(TranslateError::Unmapped));
}

#[test]
fn a_mapping_that_is_not_present_does_not_translate() {
    let mut tables = empty_tables();
    let allocator_map = frames_from(0x10_0000, 8);
    let mut allocator = BootInfoFrameAllocator::init(&allocator_map);
    let flags = PageTableFlags { present: false, writable: true, huge_page: false };
    assert!(tables.map_to(page(0x4000), frame(0xb8000), flags, &mut allocator).is_ok());
    assert_eq!(tables.translate_addr(VirtAddr::new(0x4000)), Err(TranslateError::Unmapped));
}

#[test]
fn clear_table_empties_one_table() {
    let mut tables = empty_tables();
    tables.set_entry(frame(0x2000), index(3), PageTableEntry::from_bits(0x7003));
    tables.set_entry(frame(0x3000), index(3), PageTableEntry::from_bits(0x8003));
    tables.clear_table(frame(0x2000));
    assert!(tables.entry(frame(0x2000), index(3)).is_unused());
    assert_eq!(tables.entry(frame(0x3000), index(3)).bits(), 0x8003);
}

#[test]
fn an_allocator_that_hands_out_the_level_4_frame_breaks_the_mapping() {
    let mut tables = empty_tables();
    let allocator_map = frames_from(0, 8);
    let mut allocator = BootInfoFrameAllocator::init(&allocator_map);
    assert!(tables.map_to(page(0x4000), frame(0xb8000), present_writable(), &mut allocator).is_ok());
    assert_eq!(tables.translate_addr(VirtAddr::new(0x4000)), Err(TranslateError::Unmapped));
}

#[test]
fn the_example_mapping_leads_to_the_vga_buffer() {
    let mut tables = empty_tables();
    let allocator_map = frames_from(0x10_0000, 8);
    let mut allocator = BootInfoFrameAllocator::init(&allocator_map);
    let mapped = create_example_mapping(page(0xdead_beaf_000), &mut tables, &mut allocator);
    assert_eq!(mapped.map(|flush| flush.flush()), Ok(page(0xdead_beaf_000)));
    assert_eq!(
        tables.translate_addr(VirtAddr::new(0xdead_beaf_000 + 400 * 8)),
        Ok(PhysAddr::new(0xb8000 + 3200))
    );
    let mut none = EmptyFrameAllocator;
    let failed = create_example_mapping(page(0x5ead_beaf_000), &mut tables, &mut none);
    assert_eq!(failed.map(|flush| flush.flush()), Err(MapToError::FrameAllocationFailed));
}

#[test]
fn a_walk_goes_down_one_level_with_each_entry() {
    let addr = VirtAddr::new((5 << 39) | (6 << 30) | (7 << 21) | (8 << 12) | 0x9ab);
    let walk = rust_os::memory::translate::PageWalk::new(frame(ROOT), addr);
    assert_eq!(walk.table(), frame(ROOT));
    assert_eq!(walk.index(), index(5));
    let walk = match walk.step(PageTableEntry::from_bits(0x2003)) {
        rust_os::memory::translate::WalkStep::Descend(next) => next,
        _ => panic!("the walk ended at level 4"),
    };
    assert_eq!((walk.table(), walk.index()), (frame(0x2000), index(6)));
    let walk = match walk.step(PageTableEntry::from_bits(0x3001)) {
        rust_os::memory::translate::WalkStep::Descend(next) => next,
        _ => panic!("the walk ended at level 3"),
    };
    assert_eq!((walk.table(), walk.index()), (frame(0x3000), index(7)));
    let walk = match walk.step(PageTableEntry::from_bits(0x4fff_f063)) {
        rust_os::memory::translate::WalkStep::Descend(next) => next,
        _ => panic!("the walk ended at level 2"),
    };
    assert_eq!((walk.table(), walk.index()), (frame(0x4fff_f000), index(8)));
    match walk.step(PageTableEntry::from_bits(0xb8003)) {
        rust_os::memory::translate::WalkStep::Mapped(phys) => assert_eq!(phys, PhysAddr::new(0xb89ab)),
        _ => panic!("the walk did not arrive"),
    }
}

#[test]
fn a_walk_ends_at_an_entry_that_leads_nowhere() {
    let addr = VirtAddr::new(0x7777_7777_7777);
    let walk = rust_os::memory::translate::PageWalk::new(frame(ROOT), addr);
    assert!(matches!(
        walk.step(PageTableEntry::from_bits(0x2002)),
        rust_os::memory::translate::WalkStep::Failed(TranslateError::Unmapped)
    ));
    let walk = rust_os::memory::translate::PageWalk::new(frame(ROOT), addr);
    assert!(matches!(
        walk.step(PageTableEntry::from_bits(0x2083)),
        rust_os::memory::translate::WalkStep::Failed(TranslateError::UnsupportedMapping)
    ));
}

#[test]
fn a_frame_is_reached_at_the_offset_of_physical_memory() {
    let offset = VirtAddr::new(0x1800_0000_0000);
    assert_eq!(
        rust_os::memory::mapper::frame_address(offset, frame(0x1000)),
        Some(VirtAddr::new(0x1800_0000_1000))
    );
    assert_eq!(
        rust_os::memory::mapper::frame_address(VirtAddr::new(u64::MAX - 0xfff), frame(0)),
        Some(VirtAddr::new(u64::MAX - 0xfff))
    );
    assert_eq!(
        rust_os::memory::mapper::frame_address(VirtAddr::new(u64::MAX - 0xfff), frame(0x1000)),
        None
    );
}

#[test]
fn the_right_to_set_up_paging_is_had_once() {
    let mut once = rust_os::memory::InitOnce::new();
    assert!(once.claim());
    assert!(!once.claim());
    assert!(!once.claim());
}
