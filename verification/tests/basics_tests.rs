use francium::aarch64_context;
use francium::align::{align_up, is_aligned};
use francium::cpuid::{get_vendor, is_hypervisor_present};
use francium::init::{kernel_windows, setup_physical_allocator};
use francium::types::{MapType, PagePermission, PhysAddr};
use francium::x86_context;

#[test]
fn is_aligned_reports_stray_low_bits() {
    // The test is true when bits below the alignment are set.
    assert!(!is_aligned(0x1000, 0x1000));
    assert!(is_aligned(0x1001, 0x1000));
    assert!(is_aligned(0x7, 8));
    assert!(!is_aligned(0, 8));
}

#[test]
fn align_up_rounds_to_the_next_multiple() {
    assert_eq!(align_up(0x1001, 0x1000), 0x2000);
    assert_eq!(align_up(0x1000, 0x1000), 0x1000);
    assert_eq!(align_up(0, 8), 0);
    assert_eq!(align_up(13, 8), 16);
    assert_eq!(align_up(17, 1), 17);
}

#[test]
fn phys_addr_alignment() {
    assert!(PhysAddr(0x4000_0000).is_aligned(0x4000_0000));
    assert!(!PhysAddr(0x4000_1000).is_aligned(0x4000_0000));
    assert!(PhysAddr(0x3000).is_aligned(0x1000));
}

#[test]
fn permission_bits_and_containment() {
    assert_eq!(PagePermission::READ_ONLY().bits(), 0);
    assert_eq!(PagePermission::USER_RWX().bits(), 3);
    assert_eq!(PagePermission::KERNEL_READ_WRITE().bits(), 5);
    assert_eq!(PagePermission::KERNEL_RWX().bits(), 7);
    assert!(PagePermission::KERNEL_RWX().contains(PagePermission::WRITE()));
    assert!(!PagePermission::USER_READ_EXECUTE().contains(PagePermission::WRITE()));
    assert!(PagePermission::from_bits_retain(6).same_as(PagePermission::KERNEL_READ_EXECUTE()));
    assert!(!PagePermission::USER_READ_WRITE().same_as(PagePermission::KERNEL_READ_WRITE()));
}

#[test]
fn map_type_numbers() {
    assert_eq!(MapType::from_u64(0), Some(MapType::NormalCachable));
    assert_eq!(MapType::from_u64(1), Some(MapType::NormalUncachable));
    assert_eq!(MapType::from_u64(2), Some(MapType::Device));
    assert_eq!(MapType::from_u64(3), None);
}

#[test]
fn vendor_string_from_cpuid_registers() {
    // "GenuineIntel": ebx = "Genu", edx = "ineI", ecx = "ntel".
    let v = get_vendor(0x756e_6547, 0x4965_6e69, 0x6c65_746e);
    assert_eq!(&v, b"GenuineIntel");
    let v = get_vendor(0x6874_7541, 0x6974_6e65, 0x444d_4163);
    assert_eq!(&v, b"AuthenticAMD");
}

#[test]
fn hypervisor_bit() {
    assert!(is_hypervisor_present(0x8000_0000));
    assert!(is_hypervisor_present(0xfff8_3203));
    assert!(!is_hypervisor_present(0x7fff_ffff));
}

#[test]
fn free_pages_skip_the_kernel_image_top_down() {
    let pages = setup_physical_allocator(0x1000, 0x6000, 0x2000, 0x3fff);
    assert_eq!(pages, vec![0x5000, 0x4000, 0x1000]);
}

#[test]
fn free_pages_round_a_partial_last_page_up() {
    let pages = setup_physical_allocator(0x0, 0x2800, 0xffff_0000, 0xffff_ffff);
    assert_eq!(pages, vec![0x2000, 0x1000, 0x0]);
    assert!(setup_physical_allocator(0x5000, 0x5000, 0, 0).is_empty());
    assert!(setup_physical_allocator(0x6000, 0x5000, 0, 0).is_empty());
}

#[test]
fn x86_user_thread_registers() {
    let (thread, exc) = x86_context::setup_user_context(0x40_1000, 0x4000_4000, 0xffff_8000_0010_0000, 0xffff_9000_0000_0f00);
    assert_eq!(exc.regs.rip, 0x40_1000);
    assert_eq!(exc.regs.rsp, 0x4000_4000);
    assert_eq!(exc.regs.rax, 1);
    assert_eq!(exc.regs.rbx, 3);
    assert_eq!(exc.regs.rcx, 0);
    assert_eq!(exc.regs.rdx, 4);
    assert_eq!(exc.regs.rdi, 7);
    assert_eq!(exc.regs.r15, 15);
    assert_eq!(thread.regs.rip, 0xffff_8000_0010_0000);
    assert_eq!(thread.regs.rsp, 0xffff_9000_0000_0f00);
    assert_eq!(thread.regs.rax, 0);
}

#[test]
fn aarch64_user_thread_registers() {
    let (thread, exc) = aarch64_context::setup_user_context(0x40_1000, 0x4000_4000, 0x7000, 0xffff_0000_0008_0000, 0xffff_0000_1000_0e00);
    assert_eq!(exc.regs[31], 0x4000_4000);
    assert_eq!(exc.regs[0], 0);
    assert_eq!(exc.saved_pc, 0x40_1000);
    assert_eq!(exc.saved_spsr, 0);
    assert_eq!(exc.saved_tpidr, 0x7000);
    assert_eq!(thread.regs[30], 0xffff_0000_0008_0000);
    assert_eq!(thread.regs[31], 0xffff_0000_1000_0e00);
    assert_eq!(thread.regs[29], 0);
}

#[test]
fn kernel_windows_cover_four_gib_twice() {
    let w = kernel_windows(0xffff_8000_0000_0000, 0xffff_9000_0000_0000);
    assert_eq!(w.len(), 8);
    assert_eq!((w[0].phys, w[0].virt, w[0].perm.bits(), w[0].map_type), (0, 0xffff_8000_0000_0000, 7, MapType::NormalUncachable));
    assert_eq!((w[3].phys, w[3].virt), (0xc000_0000, 0xffff_8000_c000_0000));
    assert_eq!((w[4].phys, w[4].virt, w[4].map_type), (0, 0xffff_9000_0000_0000, MapType::Device));
    assert_eq!((w[7].phys, w[7].virt, w[7].map_type), (0xc000_0000, 0xffff_9000_c000_0000, MapType::Device));
}
