use francium::aarch64_page_table::AArch64Specific;
use francium::page_table::{MapError, PageTable, PhysAlloc, TableMemory};
use francium::types::{MapType, PagePermission, PhysAddr};
use francium::x86_page_table::X86_64Specific;
use std::sync::atomic::{AtomicU64, Ordering};

static NEXT_PAGE: AtomicU64 = AtomicU64::new(0x1000_0000);

struct CountingAlloc;

impl PhysAlloc for CountingAlloc {
    fn allocate() -> Option<PhysAddr> {
        Some(PhysAddr(NEXT_PAGE.fetch_add(0x1000, Ordering::SeqCst)))
    }
}

struct NoMemory;

impl PhysAlloc for NoMemory {
    fn allocate() -> Option<PhysAddr> {
        None
    }
}

#[test]
fn map_4k_then_translate_aarch64() {
    let mut mem = TableMemory::new();
    let mut pt = PageTable::<AArch64Specific, CountingAlloc>::new();
    let virt = 0x0000_1234_5678_9000u64;
    let r = pt.map_4k(&mut mem, PhysAddr(0x4000_0000), virt, PagePermission::USER_READ_WRITE(), MapType::NormalCachable);
    assert_eq!(r, Ok(()));
    assert_eq!(pt.virt_to_phys(&mem, virt).map(|p| p.0), Some(0x4000_0000));
    assert_eq!(pt.virt_to_phys(&mem, virt + 0x123).map(|p| p.0), Some(0x4000_0123));
    assert_eq!(pt.virt_to_phys(&mem, virt + 0x1000).map(|p| p.0), None);
}

#[test]
fn map_2mb_then_translate_aarch64() {
    let mut mem = TableMemory::new();
    let mut pt = PageTable::<AArch64Specific, CountingAlloc>::new();
    let virt = 0x0000_0000_8020_0000u64;
    let r = pt.map_2mb(&mut mem, PhysAddr(0x4020_0000), virt, PagePermission::KERNEL_RWX(), MapType::Device);
    assert_eq!(r, Ok(()));
    assert_eq!(pt.virt_to_phys(&mem, virt + 0x1_2345).map(|p| p.0), Some(0x4021_2345));
}

#[test]
fn map_2mb_then_translate_x86() {
    let mut mem = TableMemory::new();
    let mut pt = PageTable::<X86_64Specific, CountingAlloc>::new();
    let virt = 0x0000_0000_4060_0000u64;
    assert_eq!(pt.map_2mb(&mut mem, PhysAddr(0x20_0000), virt, PagePermission::KERNEL_RWX(), MapType::NormalCachable), Ok(()));
    assert_eq!(pt.virt_to_phys(&mem, virt + 0x1f_fff0).map(|p| p.0), Some(0x3f_fff0));
    assert_eq!(pt.virt_to_phys(&mem, virt + 0x20_0000).map(|p| p.0), None);
}

#[test]
fn map_1gb_then_translate_x86() {
    let mut mem = TableMemory::new();
    let mut pt = PageTable::<X86_64Specific, CountingAlloc>::new();
    let virt = 0x0000_0040_8000_0000u64;
    assert_eq!(pt.map_1gb(&mut mem, PhysAddr(0x4000_0000), virt, PagePermission::KERNEL_RWX(), MapType::Device), Ok(()));
    assert_eq!(pt.virt_to_phys(&mem, virt + 0x1234_5678).map(|p| p.0), Some(0x5234_5678));
}

#[test]
fn map_without_memory_fails() {
    let mut mem = TableMemory::new();
    let mut pt = PageTable::<X86_64Specific, NoMemory>::new();
    let r = pt.map_4k(&mut mem, PhysAddr(0x5000), 0x7000, PagePermission::USER_RWX(), MapType::NormalCachable);
    assert_eq!(r, Err(MapError::AllocationFailed));
}

#[test]
fn map_4k_then_translate_x86() {
    let mut mem = TableMemory::new();
    let mut pt = PageTable::<X86_64Specific, CountingAlloc>::new();
    let r = pt.map_4k(&mut mem, PhysAddr(0x5000), 0x7000, PagePermission::USER_RWX(), MapType::NormalCachable);
    assert_eq!(r, Ok(()));
    assert_eq!(pt.virt_to_phys(&mem, 0x7fff).map(|p| p.0), Some(0x5fff));
}

#[test]
fn mapping_a_page_keeps_its_neighbours() {
    let mut mem = TableMemory::new();
    let mut pt = PageTable::<AArch64Specific, CountingAlloc>::new();
    let first = 0x0000_0000_0040_0000u64;
    let second = first + 0x1000;
    let far = 0x0000_0040_0000_0000u64;
    assert_eq!(pt.map_4k(&mut mem, PhysAddr(0x8000_0000), first, PagePermission::USER_RWX(), MapType::NormalCachable), Ok(()));
    assert_eq!(pt.map_4k(&mut mem, PhysAddr(0x8000_5000), second, PagePermission::USER_RWX(), MapType::NormalCachable), Ok(()));
    assert_eq!(pt.map_4k(&mut mem, PhysAddr(0x9000_0000), far, PagePermission::USER_READ_WRITE(), MapType::Device), Ok(()));
    assert_eq!(pt.virt_to_phys(&mem, first + 0x10).map(|p| p.0), Some(0x8000_0010));
    assert_eq!(pt.virt_to_phys(&mem, second + 0x20).map(|p| p.0), Some(0x8000_5020));
    assert_eq!(pt.virt_to_phys(&mem, far + 0xfff).map(|p| p.0), Some(0x9000_0fff));
    assert_eq!(pt.virt_to_phys(&mem, first + 0x2000).map(|p| p.0), None);
}

#[test]
fn mapping_a_block_keeps_other_pages() {
    let mut mem = TableMemory::new();
    let mut pt = PageTable::<AArch64Specific, CountingAlloc>::new();
    let page = 0x0000_0000_0040_0000u64;
    let block = 0x0000_0000_0060_0000u64;
    let huge = 0x0000_0000_8000_0000u64;
    assert_eq!(pt.map_4k(&mut mem, PhysAddr(0x8000_0000), page, PagePermission::USER_RWX(), MapType::NormalCachable), Ok(()));
    assert_eq!(pt.map_2mb(&mut mem, PhysAddr(0x4020_0000), block, PagePermission::KERNEL_RWX(), MapType::Device), Ok(()));
    assert_eq!(pt.map_1gb(&mut mem, PhysAddr(0xc000_0000), huge, PagePermission::KERNEL_RWX(), MapType::Device), Ok(()));
    assert_eq!(pt.virt_to_phys(&mem, page + 0x44).map(|p| p.0), Some(0x8000_0044));
    assert_eq!(pt.virt_to_phys(&mem, block + 0x1_0044).map(|p| p.0), Some(0x4021_0044));
    assert_eq!(pt.virt_to_phys(&mem, huge + 0x10_0000).map(|p| p.0), Some(0xc010_0000));
    assert_eq!(pt.virt_to_phys(&mem, page + 0x1000).map(|p| p.0), None);
}

#[test]
fn remapping_a_page_replaces_its_frame() {
    let mut mem = TableMemory::new();
    let mut pt = PageTable::<X86_64Specific, CountingAlloc>::new();
    let v = 0x0000_0000_1234_5000u64;
    assert_eq!(pt.map_4k(&mut mem, PhysAddr(0x1000), v, PagePermission::USER_RWX(), MapType::NormalCachable), Ok(()));
    assert_eq!(pt.map_4k(&mut mem, PhysAddr(0x7000), v, PagePermission::USER_RWX(), MapType::NormalCachable), Ok(()));
    assert_eq!(pt.virt_to_phys(&mem, v + 1).map(|p| p.0), Some(0x7001));
}

#[test]
fn reprotect_keeps_the_frame() {
    let mut mem = TableMemory::new();
    let mut pt = PageTable::<AArch64Specific, CountingAlloc>::new();
    let v = 0x0000_0000_0060_0000u64;
    assert_eq!(pt.map_4k(&mut mem, PhysAddr(0x4444_0000), v, PagePermission::USER_RWX(), MapType::NormalCachable), Ok(()));
    assert_eq!(pt.reprotect_4k(&mut mem, v, PagePermission::USER_READ_ONLY(), MapType::NormalCachable), Ok(()));
    assert_eq!(pt.virt_to_phys(&mem, v + 0xabc).map(|p| p.0), Some(0x4444_0abc));
}

#[test]
fn map_1gb_then_translate_aarch64() {
    let mut mem = TableMemory::new();
    let mut pt = PageTable::<AArch64Specific, CountingAlloc>::new();
    let virt = 0x0000_0080_0000_0000u64;
    assert_eq!(pt.map_1gb(&mut mem, PhysAddr(0x4000_0000), virt, PagePermission::KERNEL_RWX(), MapType::NormalUncachable), Ok(()));
    assert_eq!(pt.virt_to_phys(&mem, virt + 0x1234_5678).map(|p| p.0), Some(0x5234_5678));
}

#[test]
fn user_process_shares_the_kernel_entries() {
    let mut mem = TableMemory::new();
    let mut kernel = PageTable::<AArch64Specific, CountingAlloc>::new();
    // Root entries 448, 480 and 511, and one that stays private (1).
    for &virt in &[448u64 << 39, 480u64 << 39, 511u64 << 39, 1u64 << 39] {
        assert_eq!(kernel.map_4k(&mut mem, PhysAddr(0x20_0000), virt, PagePermission::KERNEL_RWX(), MapType::NormalCachable), Ok(()));
    }
    let user = kernel.user_process();
    assert_eq!(user.root_entry(448), kernel.root_entry(448));
    assert_eq!(user.root_entry(480), kernel.root_entry(480));
    assert_eq!(user.root_entry(511), kernel.root_entry(511));
    assert_ne!(kernel.root_entry(1), 0);
    assert_eq!(user.root_entry(1), 0);
    assert_eq!(user.virt_to_phys(&mem, 511u64 << 39).map(|p| p.0), Some(0x20_0000));
    assert_eq!(user.virt_to_phys(&mem, 1u64 << 39).map(|p| p.0), None);
}

#[test]
fn table_memory_reads_what_was_written() {
    let mut mem = TableMemory::new();
    assert!(!mem.holds_table(0x5000));
    assert_eq!(mem.read(0x5000, 3), 0);
    mem.write(0x5000, 3, 0xdead_b000);
    assert!(mem.holds_table(0x5000));
    assert_eq!(mem.read(0x5000, 3), 0xdead_b000);
    assert_eq!(mem.read(0x5000, 4), 0);
    mem.install_zero(0x5000);
    assert_eq!(mem.read(0x5000, 3), 0);
}
