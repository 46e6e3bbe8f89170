use francium::aarch64_page_table::AArch64Specific;
use francium::memory::{AddressSpace, OverlapScan, RegionError};
use francium::process_load::{create_regions, LoadPlan, SectionLoad};
use francium::page_table::{MapError, PageTable, PhysAlloc, TableMemory};
use francium::types::{MapType, PagePermission, PhysAddr};
use francium::x86_page_table::X86_64Specific;
use std::sync::atomic::{AtomicU64, Ordering};

static NEXT_FRAME: AtomicU64 = AtomicU64::new(0x2000_0000);

struct Frames;

impl PhysAlloc for Frames {
    fn allocate() -> Option<PhysAddr> {
        Some(PhysAddr(NEXT_FRAME.fetch_add(0x1000, Ordering::SeqCst)))
    }
}

struct Empty;

impl PhysAlloc for Empty {
    fn allocate() -> Option<PhysAddr> {
        None
    }
}

struct Unaligned;

impl PhysAlloc for Unaligned {
    fn allocate() -> Option<PhysAddr> {
        Some(PhysAddr(0x1234))
    }
}

fn space(mem: &mut TableMemory) -> AddressSpace<AArch64Specific, Frames> {
    AddressSpace::new(PageTable::new(), mem).unwrap()
}

#[test]
fn new_address_space_is_empty() {
    let mut mem = TableMemory::new();
    let aspace = space(&mut mem);
    assert_eq!(aspace.region_count(), 0);
    assert!(aspace.region(0).is_none());
    assert_eq!(aspace.table_base().0 % 0x1000, 0);
}

#[test]
fn new_address_space_copies_the_template_into_its_root_page() {
    let mut mem = TableMemory::new();
    let mut template = PageTable::<AArch64Specific, Frames>::new();
    assert_eq!(template.map_4k(&mut mem, PhysAddr(0x7000_0000), 0x0000_0080_0000_0000, PagePermission::KERNEL_RWX(), MapType::Device), Ok(()));
    let entries = template.root_entries();
    let aspace = AddressSpace::new(template, &mut mem).unwrap();
    let base = aspace.table_base().0;
    assert!(mem.holds_table(base));
    for i in 0..512usize {
        assert_eq!(mem.read(base, i), entries[i]);
    }
    assert_ne!(entries[1], 0);
    assert_eq!(aspace.page_table.virt_to_phys(&mem, 0x0000_0080_0000_0123).map(|p| p.0), Some(0x7000_0123));
}

#[test]
fn new_address_space_needs_a_page() {
    let mut mem = TableMemory::new();
    let r = AddressSpace::<X86_64Specific, Empty>::new(PageTable::new(), &mut mem);
    assert!(matches!(r, Err(MapError::AllocationFailed)));
    let r = AddressSpace::<X86_64Specific, Unaligned>::new(PageTable::new(), &mut mem);
    assert!(matches!(r, Err(MapError::UnusableAllocation)));
}

#[test]
fn create_maps_every_page_of_the_region() {
    let mut mem = TableMemory::new();
    let mut aspace = space(&mut mem);
    assert_eq!(aspace.create(&mut mem, 0x40_0000, 0x3000, PagePermission::USER_READ_WRITE()), Ok(()));
    assert_eq!(aspace.region_count(), 1);
    let b = aspace.region(0).unwrap();
    assert_eq!((b.address, b.size, b.permissions.bits()), (0x40_0000, 0x3000, 1));
    let mut frames = Vec::new();
    for k in 0..3u64 {
        let p = aspace.page_table.virt_to_phys(&mem, 0x40_0000 + k * 0x1000 + 0x10).expect("page mapped");
        assert_eq!(p.0 % 0x1000, 0x10);
        frames.push(p.0 - 0x10);
    }
    frames.sort();
    frames.dedup();
    assert_eq!(frames.len(), 3);
    assert!(aspace.page_table.virt_to_phys(&mem, 0x40_3000).is_none());
}

#[test]
fn create_of_nothing_succeeds() {
    let mut mem = TableMemory::new();
    let mut aspace = space(&mut mem);
    assert_eq!(aspace.create(&mut mem, 0x80_0000, 0, PagePermission::USER_READ_ONLY()), Ok(()));
    assert_eq!(aspace.region_count(), 1);
    assert!(aspace.page_table.virt_to_phys(&mem, 0x80_0000).is_none());
}

#[test]
fn create_reports_a_refused_frame() {
    let mut mem = TableMemory::new();
    let mut aspace = AddressSpace::<AArch64Specific, Unaligned>::with_root(PageTable::new(), PhysAddr(0x5000), &mut mem);
    assert_eq!(aspace.create(&mut mem, 0x40_0000, 0x1000, PagePermission::USER_RWX()), Err(MapError::UnusableAllocation));
    assert_eq!(aspace.region_count(), 0);
}

#[test]
fn overlap_checks_of_create() {
    let mut mem = TableMemory::new();
    let mut aspace = space(&mut mem);
    assert_eq!(aspace.create(&mut mem, 0x10_0000, 0x2000, PagePermission::USER_RWX()), Ok(()));
    // Starts inside the new span.
    assert!(aspace.overlaps(0xf_f000, 0x2000));
    // Ends inside the new span.
    assert!(aspace.overlaps(0x10_1000, 0x2000));
    // Touching the end from above counts as starting inside.
    assert!(aspace.overlaps(0xf_e000, 0x2000));
    // Disjoint.
    assert!(!aspace.overlaps(0x20_0000, 0x1000));
    assert!(!aspace.overlaps(0x10_2000, 0x1000));
}

#[test]
fn expand_maps_the_new_tail() {
    let mut mem = TableMemory::new();
    let mut aspace = space(&mut mem);
    assert_eq!(aspace.create(&mut mem, 0x50_0000, 0x1000, PagePermission::USER_READ_WRITE()), Ok(()));
    assert_eq!(aspace.find_region(0x50_0000), Some(0));
    assert_eq!(aspace.find_region(0x60_0000), None);
    let first = aspace.page_table.virt_to_phys(&mem, 0x50_0000).unwrap().0;
    assert_eq!(aspace.expand(&mut mem, 0x50_0000, 0x3000), Ok(()));
    let b = aspace.region(0).unwrap();
    assert_eq!((b.address, b.size, b.permissions.bits()), (0x50_0000, 0x3000, 1));
    assert_eq!(aspace.page_table.virt_to_phys(&mem, 0x50_0000).unwrap().0, first);
    assert!(aspace.page_table.virt_to_phys(&mem, 0x50_1000).is_some());
    assert!(aspace.page_table.virt_to_phys(&mem, 0x50_2fff).is_some());
    assert!(aspace.page_table.virt_to_phys(&mem, 0x50_3000).is_none());
    // Same size: nothing to map.
    assert_eq!(aspace.expand(&mut mem, 0x50_0000, 0x3000), Ok(()));
}

#[test]
fn alias_maps_consecutive_frames() {
    let mut mem = TableMemory::new();
    let mut aspace = space(&mut mem);
    let r = aspace.alias(&mut mem, PhysAddr(0x0900_0000), 0xffff_0000_0000, 0x3000, MapType::Device, PagePermission::KERNEL_READ_WRITE());
    assert_eq!(r, Ok(()));
    assert_eq!(aspace.page_table.virt_to_phys(&mem, 0xffff_0000_0000).map(|p| p.0), Some(0x0900_0000));
    assert_eq!(aspace.page_table.virt_to_phys(&mem, 0xffff_0000_2018).map(|p| p.0), Some(0x0900_2018));
    let b = aspace.region(0).unwrap();
    assert_eq!((b.address, b.size, b.permissions.bits()), (0xffff_0000_0000, 0x3000, 5));
}

#[test]
fn scan_finds_the_first_region_that_ends_inside() {
    let mut mem = TableMemory::new();
    let mut aspace = space(&mut mem);
    assert_eq!(aspace.create(&mut mem, 0x10_0000, 0x2000, PagePermission::USER_READ_WRITE()), Ok(()));
    assert_eq!(aspace.create(&mut mem, 0x30_0000, 0x1000, PagePermission::USER_READ_WRITE()), Ok(()));
    assert_eq!(aspace.scan_overlap(0x10_1000, 0x3000), OverlapScan::EndsInside(0));
    assert_eq!(aspace.scan_overlap(0x2f_f000, 0x2000), OverlapScan::StartsInside);
    assert_eq!(aspace.scan_overlap(0x40_0000, 0x1000), OverlapScan::Clear);
}

#[test]
fn create_with_overlap_grows_the_region() {
    let mut mem = TableMemory::new();
    let mut aspace = space(&mut mem);
    assert_eq!(aspace.create(&mut mem, 0x10_0000, 0x2000, PagePermission::USER_READ_WRITE()), Ok(()));
    let kept = aspace.page_table.virt_to_phys(&mem, 0x10_1000).unwrap().0;
    // Starts inside the region, which ends inside the new span.
    assert_eq!(aspace.create_with_overlap(&mut mem, 0x10_1000, 0x3000, PagePermission::USER_RWX()), Ok(()));
    assert_eq!(aspace.region_count(), 1);
    let b = aspace.region(0).unwrap();
    assert_eq!((b.address, b.size, b.permissions.bits()), (0x10_0000, 0x3000, 1));
    assert_eq!(aspace.page_table.virt_to_phys(&mem, 0x10_1000).unwrap().0, kept);
    assert!(aspace.page_table.virt_to_phys(&mem, 0x10_2000).is_some());
    assert!(aspace.page_table.virt_to_phys(&mem, 0x10_3000).is_some());
    assert!(aspace.page_table.virt_to_phys(&mem, 0x10_4000).is_none());
}

#[test]
fn create_with_overlap_creates_when_clear() {
    let mut mem = TableMemory::new();
    let mut aspace = space(&mut mem);
    assert_eq!(aspace.create_with_overlap(&mut mem, 0x70_0000, 0x1000, PagePermission::USER_READ_ONLY()), Ok(()));
    assert_eq!(aspace.region_count(), 1);
    let b = aspace.region(0).unwrap();
    assert_eq!((b.address, b.size, b.permissions.bits()), (0x70_0000, 0x1000, 0));
    assert!(aspace.page_table.virt_to_phys(&mem, 0x70_0000).is_some());
}

#[test]
fn regions_of_two_address_spaces_stay_apart() {
    let mut mem = TableMemory::new();
    let mut a = space(&mut mem);
    let mut b = space(&mut mem);
    assert_eq!(a.create(&mut mem, 0x40_0000, 0x1000, PagePermission::USER_RWX()), Ok(()));
    assert_eq!(b.create(&mut mem, 0x40_0000, 0x1000, PagePermission::USER_RWX()), Ok(()));
    let pa = a.page_table.virt_to_phys(&mem, 0x40_0000).unwrap().0;
    let pb = b.page_table.virt_to_phys(&mem, 0x40_0000).unwrap().0;
    assert_ne!(pa, pb);
    // Growing beyond four regions spills the inline storage.
    for k in 1..6u64 {
        assert_eq!(a.create(&mut mem, 0x40_0000 + k * 0x10_0000, 0x1000, PagePermission::USER_RWX()), Ok(()));
    }
    assert_eq!(a.region_count(), 6);
    assert_eq!(a.region(5).unwrap().address, 0x90_0000);
}

#[test]
fn every_page_of_every_region_stays_mapped() {
    let mut mem = TableMemory::new();
    let mut aspace = space(&mut mem);
    assert_eq!(aspace.create(&mut mem, 0x10_0000, 0x2000, PagePermission::USER_READ_WRITE()), Ok(()));
    assert_eq!(aspace.alias(&mut mem, PhysAddr(0x0900_0000), 0x20_0000, 0x1800, MapType::Device, PagePermission::USER_READ_WRITE()), Ok(()));
    assert_eq!(aspace.create(&mut mem, 0x30_0000, 0x1000, PagePermission::USER_RWX()), Ok(()));
    assert_eq!(aspace.expand(&mut mem, 0x30_0000, 0x4000), Ok(()));
    assert_eq!(aspace.create_with_overlap(&mut mem, 0x10_1000, 0x1800, PagePermission::USER_RWX()), Ok(()));
    assert_eq!(aspace.region(0).map(|b| b.size), Some(0x1800));
    for i in 0..aspace.region_count() {
        let b = aspace.region(i).unwrap();
        let mut a = b.address;
        while a < b.address + b.size {
            assert!(aspace.page_table.virt_to_phys(&mem, a).is_some(), "region {} page {:#x}", i, a);
            a += 0x1000;
        }
    }
}

#[test]
fn create_checked_refuses_as_the_kernel_did() {
    let mut mem = TableMemory::new();
    let mut aspace = space(&mut mem);
    assert_eq!(aspace.create_checked(&mut mem, 0x40_0010, 0x1000, PagePermission::USER_RWX()), Err(RegionError::Misaligned));
    assert_eq!(aspace.create_checked(&mut mem, 0x40_0000, 0x800, PagePermission::USER_RWX()), Err(RegionError::Misaligned));
    assert_eq!(aspace.create_checked(&mut mem, 0xffff_ffff_ffff_f000, 0x2000, PagePermission::USER_RWX()), Err(RegionError::Overflow));
    assert_eq!(aspace.create_checked(&mut mem, 0x40_0000, 0x2000, PagePermission::USER_RWX()), Ok(()));
    assert_eq!(aspace.create_checked(&mut mem, 0x3f_f000, 0x2000, PagePermission::USER_RWX()), Err(RegionError::Overlapping));
    assert_eq!(aspace.region_count(), 1);
}

#[test]
fn create_regions_makes_the_sections_then_the_stack() {
    let mut mem = TableMemory::new();
    let mut aspace = space(&mut mem);
    let plan = LoadPlan {
        entry: 0x40_0000,
        sections: vec![
            SectionLoad { start: 0x40_0000, size: 0x1000, file_offset: 0x1000, permission: PagePermission::USER_RWX() },
            SectionLoad { start: 0x60_0000, size: 0x2000, file_offset: 0x2000, permission: PagePermission::USER_READ_WRITE() },
        ],
        stack_base: 0x4000_0000,
        stack_size: 0x4000,
    };
    assert_eq!(create_regions(&mut aspace, &mut mem, &plan), Ok(()));
    assert_eq!(aspace.region_count(), 3);
    let s = aspace.region(2).unwrap();
    assert_eq!((s.address, s.size, s.permissions.bits()), (0x4000_0000, 0x4000, 1));
    assert!(aspace.page_table.virt_to_phys(&mem, 0x60_1000).is_some());
    let mut again = space(&mut mem);
    let bad = LoadPlan { entry: 0, sections: vec![plan.sections[0], plan.sections[0]], stack_base: 0x4000_0000, stack_size: 0x4000 };
    assert_eq!(create_regions(&mut again, &mut mem, &bad), Err(RegionError::Overlapping));
    assert_eq!(again.region_count(), 1);
}

static THREE_LEFT: AtomicU64 = AtomicU64::new(3);

struct ThreeFrames;

impl PhysAlloc for ThreeFrames {
    fn allocate() -> Option<PhysAddr> {
        let left = THREE_LEFT.load(Ordering::SeqCst);
        if left == 0 {
            return None;
        }
        THREE_LEFT.store(left - 1, Ordering::SeqCst);
        Some(PhysAddr(0x3000_0000 + left * 0x1000))
    }
}

#[test]
fn alias_needs_no_frame_where_the_tables_exist() {
    let mut mem = TableMemory::new();
    let mut aspace = AddressSpace::<AArch64Specific, ThreeFrames>::with_root(PageTable::new(), PhysAddr(0x9000), &mut mem);
    // The first page takes the three tables; the second finds them.
    let r = aspace.alias(&mut mem, PhysAddr(0x1000_0000), 0x40_0000, 0x2000, MapType::Device, PagePermission::KERNEL_READ_WRITE());
    assert_eq!(r, Ok(()));
    // Every page of this span already has its tables, and none is left.
    let r = aspace.alias(&mut mem, PhysAddr(0x2000_0000), 0x40_5000, 0x3000, MapType::Device, PagePermission::KERNEL_READ_WRITE());
    assert_eq!(r, Ok(()));
    assert_eq!(aspace.page_table.virt_to_phys(&mem, 0x40_6010).map(|p| p.0), Some(0x2000_1010));
    // A page under another root entry would need new tables.
    let r = aspace.alias(&mut mem, PhysAddr(0x2000_0000), 0x80_0000_0000, 0x1000, MapType::Device, PagePermission::KERNEL_READ_WRITE());
    assert_eq!(r, Err(MapError::AllocationFailed));
}
