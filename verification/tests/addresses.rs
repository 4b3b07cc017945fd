use rust_os::memory::addr::AddressNotAligned;
use rust_os::memory::addr::Page;
use rust_os::memory::addr::PageTableIndex;
use rust_os::memory::addr::PhysAddr;
use rust_os::memory::addr::PhysFrame;
use rust_os::memory::addr::VirtAddr;
use rust_os::memory::addr::PAGE_SIZE;
use rust_os::memory::addr::PHYS_ADDR_LIMIT;

const SAMPLES: [u64; 10] = [
    0,
    0xfff,
    0x1000,
    0xb8000,
    0x201008,
    0x0100_0020_1a10,
    0xdead_beaf_000,
    0x7777_7777_7777,
    0x7fff_ffff_ffff,
    0xffff_8000_0000_0000,
];

#[test]
fn an_address_splits_into_four_indices_and_an_offset() {
    let addr = VirtAddr::new(0x7777_7777_7777);
    assert_eq!(addr.as_u64(), 0x7777_7777_7777);
    assert_eq!(addr.p4_index().as_usize(), 238);
    assert_eq!(addr.p3_index().as_usize(), 477);
    assert_eq!(addr.p2_index().as_usize(), 443);
    assert_eq!(addr.p1_index().as_usize(), 375);
    assert_eq!(addr.page_offset(), 0x777);
}

#[test]
fn the_parts_of_an_address_put_it_together_again() {
    for addr in SAMPLES {
        let virt = VirtAddr::new(addr);
        let low = (virt.p4_index().as_usize() as u64) << 39
            | (virt.p3_index().as_usize() as u64) << 30
            | (virt.p2_index().as_usize() as u64) << 21
            | (virt.p1_index().as_usize() as u64) << 12
            | virt.page_offset();
        assert_eq!(low, addr & 0xffff_ffff_ffff);
    }
}

#[test]
fn indices_agree_with_the_x86_64_crate() {
    for addr in SAMPLES {
        let ours = VirtAddr::new(addr);
        let theirs = x86_64::VirtAddr::new(addr);
        assert_eq!(ours.p4_index().as_usize(), usize::from(theirs.p4_index()));
        assert_eq!(ours.p3_index().as_usize(), usize::from(theirs.p3_index()));
        assert_eq!(ours.p2_index().as_usize(), usize::from(theirs.p2_index()));
        assert_eq!(ours.p1_index().as_usize(), usize::from(theirs.p1_index()));
        assert_eq!(ours.page_offset(), u64::from(theirs.page_offset()));
    }
}

#[test]
fn pages_agree_with_the_x86_64_crate() {
    for addr in SAMPLES {
        let ours = Page::containing_address(VirtAddr::new(addr));
        let theirs: x86_64::structures::paging::Page =
            x86_64::structures::paging::Page::containing_address(x86_64::VirtAddr::new(addr));
        assert_eq!(ours.start_address().as_u64(), theirs.start_address().as_u64());
        assert_eq!(ours.p4_index().as_usize(), usize::from(theirs.p4_index()));
        assert_eq!(ours.p1_index().as_usize(), usize::from(theirs.p1_index()));
    }
}

#[test]
fn frames_agree_with_the_x86_64_crate() {
    for addr in [0u64, 0xfff, 0x1000, 0xb8000, 0xb8fff, 0x201008, (1 << 52) - 1] {
        let ours = PhysFrame::containing_address(PhysAddr::new(addr));
        let theirs: x86_64::structures::paging::PhysFrame =
            x86_64::structures::paging::PhysFrame::containing_address(x86_64::PhysAddr::new(addr));
        assert_eq!(ours.start_address().as_u64(), theirs.start_address().as_u64());
    }
}

#[test]
fn the_page_of_an_address_starts_at_a_multiple_of_4096() {
    let page = Page::containing_address(VirtAddr::new(0xdead_beaf_123));
    assert_eq!(page.start_address().as_u64(), 0xdead_beaf_000);
    let same = Page::containing_address(VirtAddr::new(0xdead_beaf_fff));
    assert_eq!(page, same);
    let next = Page::containing_address(VirtAddr::new(0xdead_beb0_000));
    assert_ne!(page, next);
}

#[test]
fn the_frame_of_an_address_starts_at_a_multiple_of_4096() {
    let frame = PhysFrame::containing_address(PhysAddr::new(0xb8123));
    assert_eq!(frame.start_address().as_u64(), 0xb8000);
    assert_eq!(frame, PhysFrame::containing_address(PhysAddr::new(0xb8000)));
}

#[test]
fn from_start_address_takes_only_aligned_addresses() {
    assert_eq!(
        PhysFrame::from_start_address(PhysAddr::new(0x5000)),
        Ok(PhysFrame::containing_address(PhysAddr::new(0x5000)))
    );
    assert_eq!(PhysFrame::from_start_address(PhysAddr::new(0x5001)), Err(AddressNotAligned));
    assert_eq!(
        Page::from_start_address(VirtAddr::new(0x7000)),
        Ok(Page::containing_address(VirtAddr::new(0x7000)))
    );
    assert_eq!(Page::from_start_address(VirtAddr::new(0x7fff)), Err(AddressNotAligned));
}

#[test]
fn physical_addresses_have_52_bits() {
    assert_eq!(PHYS_ADDR_LIMIT, 1 << 52);
    assert_eq!(PhysAddr::try_new(0).map(|a| a.as_u64()), Some(0));
    assert_eq!(PhysAddr::try_new((1 << 52) - 1).map(|a| a.as_u64()), Some((1 << 52) - 1));
    assert_eq!(PhysAddr::try_new(1 << 52), None);
    assert_eq!(PhysAddr::try_new(u64::MAX), None);
    assert_eq!(PhysAddr::new(0xb8000).as_u64(), 0xb8000);
}

#[test]
fn checked_add_stops_at_the_end_of_the_address_space() {
    assert_eq!(VirtAddr::new(0x1000).checked_add(0x234), Some(VirtAddr::new(0x1234)));
    assert_eq!(VirtAddr::new(u64::MAX - 1).checked_add(1), Some(VirtAddr::new(u64::MAX)));
    assert_eq!(VirtAddr::new(u64::MAX).checked_add(1), None);
}

#[test]
fn page_table_indices_are_below_512() {
    assert_eq!(PageTableIndex::new(0).as_usize(), 0);
    assert_eq!(PageTableIndex::new(511).as_usize(), 511);
    assert_eq!(PageTableIndex::new_truncate(512).as_usize(), 0);
    assert_eq!(PageTableIndex::new_truncate(1023).as_usize(), 511);
    assert_eq!(PageTableIndex::new_truncate(0xffff).as_usize(), 511);
}

#[test]
fn a_page_range_counts_both_ends() {
    let start = Page::containing_address(VirtAddr::new(0x4000));
    let end = Page::containing_address(VirtAddr::new(0x6fff));
    let range = Page::range_inclusive(start, end);
    assert_eq!(range.len(), 3);
    assert_eq!(range.get(0), start);
    assert_eq!(range.get(1).start_address().as_u64(), 0x5000);
    assert_eq!(range.get(2), end);
    assert_eq!(Page::range_inclusive(start, start).len(), 1);
    assert_eq!(Page::range_inclusive(end, start).len(), 0);
    assert_eq!(PAGE_SIZE, 4096);
}
