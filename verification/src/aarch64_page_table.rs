//! The AArch64 (4 KiB granule) translation table descriptor format.
use vstd::prelude::*;
use crate::types::{PhysAddr, PagePermission, MapType};
use crate::page_table::{PageTableSpecific, ADDR_MASK, is_frame, leaf_entry};

verus! {

/// Descriptor bit 0: the descriptor is valid.
pub const VALID: u64 = 1;
/// Descriptor bit 1 clear: a block (levels 1 and 2).
pub const TYPE_BLOCK: u64 = 0;
/// Descriptor bit 1 set: a table (levels 0 to 2).
pub const TYPE_TABLE: u64 = 2;
/// Descriptor bit 1 set: a page (level 3).
pub const TYPE_PAGE: u64 = 2;
/// Memory attribute index 0 (normal, cacheable).
pub const ATTR_INDEX_0: u64 = 0;
/// Memory attribute index 1 (normal, uncacheable).
pub const ATTR_INDEX_1: u64 = 4;
/// Memory attribute index 2 (device).
pub const ATTR_INDEX_2: u64 = 8;
/// AP[2]: read-only.
pub const ATTR_AP_2: u64 = 0x80;
/// AP[1]: accessible from EL0.
pub const ATTR_AP_1: u64 = 0x40;
/// The access flag.
pub const ATTR_ACCESS: u64 = 0x400;
/// Execute-never.
pub const ATTR_XN: u64 = 0x40_0000_0000_0000;
/// Privileged execute-never.
pub const ATTR_PXN: u64 = 0x20_0000_0000_0000;

/// The AArch64 descriptor encoding.
pub struct AArch64Specific {}

/// The permission bits of an AArch64 descriptor: EL0 access unless
/// kernel-only, read-only unless writable, execute-never unless executable.
pub open spec fn aarch64_perm_bits(perm: PagePermission) -> u64 {
    ((0u64 | (if !perm.is_kernel() { ATTR_AP_1 } else { 0u64 }))
        | (if !perm.is_writable() { ATTR_AP_2 } else { 0u64 }))
        | (if !perm.is_executable() { ATTR_XN } else { 0u64 })
}

/// The values of the descriptor flag combinations.
proof fn lemma_aarch64_flag_values(k: u64, w: u64, x: u64, t: u64)
    ensures
        VALID | TYPE_PAGE | ATTR_ACCESS == 0x403,
        VALID | TYPE_TABLE == 3,
        VALID | TYPE_BLOCK | ATTR_ACCESS == 0x401,
        (k == 0 || k == ATTR_AP_1) && (w == 0 || w == ATTR_AP_2) && (x == 0 || x == ATTR_XN)
            ==> (((0u64 | k) | w) | x) & 2 == 0,
        (t == 0 || t == 4 || t == 8) ==> t & 2 == 0,
        3u64 & 1 == 1 && 3u64 & 2 == 2,
        0x403u64 & 1 == 1 && 0x403u64 & 2 == 2,
        0x401u64 & 1 == 1 && 0x401u64 & 2 == 0,
{
    assert(VALID | TYPE_PAGE | ATTR_ACCESS == 0x403
        && VALID | TYPE_TABLE == 3
        && VALID | TYPE_BLOCK | ATTR_ACCESS == 0x401
        && ((k == 0 || k == ATTR_AP_1) && (w == 0 || w == ATTR_AP_2) && (x == 0 || x == ATTR_XN)
            ==> (((0u64 | k) | w) | x) & 2 == 0)
        && ((t == 0 || t == 4 || t == 8) ==> t & 2 == 0)
        && 3u64 & 1 == 1 && 3u64 & 2 == 2
        && 0x403u64 & 1 == 1 && 0x403u64 & 2 == 2
        && 0x401u64 & 1 == 1 && 0x401u64 & 2 == 0) by (bit_vector);
}

impl PageTableSpecific for AArch64Specific {
    open spec fn spec_is_valid(e: u64) -> bool {
        e & VALID != 0
    }

    open spec fn spec_is_table(e: u64) -> bool {
        e & TYPE_TABLE == TYPE_TABLE
    }

    open spec fn spec_map_perms(perm: PagePermission) -> u64 {
        aarch64_perm_bits(perm)
    }

    open spec fn spec_map_type(ty: MapType) -> u64 {
        match ty {
            MapType::NormalCachable => ATTR_INDEX_0,
            MapType::NormalUncachable => ATTR_INDEX_1,
            MapType::Device => ATTR_INDEX_2,
        }
    }

    open spec fn spec_page_default_flags() -> u64 {
        0x403
    }

    open spec fn spec_table_default_flags() -> u64 {
        3
    }

    open spec fn spec_block_default_flags() -> u64 {
        0x401
    }

    open spec fn spec_new_entry(flags: u64, addr: u64) -> u64 {
        (flags & !ADDR_MASK) | (addr & ADDR_MASK)
    }

    open spec fn spec_get_addr(e: u64) -> u64 {
        e & ADDR_MASK
    }

    fn is_valid(e: u64) -> (r: bool) {
        (e & VALID) != 0
    }

    fn is_table(e: u64) -> (r: bool) {
        (e & TYPE_TABLE) == TYPE_TABLE
    }

    fn map_perms(perm: PagePermission) -> (r: u64) {
        let mut flags: u64 = 0;
        flags = flags | (if !perm.contains(PagePermission::KERNEL()) { ATTR_AP_1 } else { 0 });
        flags = flags | (if !perm.contains(PagePermission::WRITE()) { ATTR_AP_2 } else { 0 });
        flags = flags | (if !perm.contains(PagePermission::EXECUTE()) { ATTR_XN } else { 0 });
        flags
    }

    fn map_type(ty: MapType) -> (r: u64) {
        match ty {
            MapType::NormalCachable => ATTR_INDEX_0,
            MapType::NormalUncachable => ATTR_INDEX_1,
            MapType::Device => ATTR_INDEX_2,
        }
    }

    fn get_page_default_flags() -> (r: u64) {
        proof {
            lemma_aarch64_flag_values(0, 0, 0, 0);
        }
        VALID | TYPE_PAGE | ATTR_ACCESS
    }

    fn get_table_default_flags() -> (r: u64) {
        proof {
            lemma_aarch64_flag_values(0, 0, 0, 0);
        }
        VALID | TYPE_TABLE
    }

    fn get_block_default_flags() -> (r: u64) {
        proof {
            lemma_aarch64_flag_values(0, 0, 0, 0);
        }
        VALID | TYPE_BLOCK | ATTR_ACCESS
    }

    fn new_entry(flags: u64, addr: PhysAddr) -> (r: u64) {
        (flags & !ADDR_MASK) | (addr.0 & ADDR_MASK)
    }

    fn get_addr(e: u64) -> (r: PhysAddr) {
        PhysAddr(e & ADDR_MASK)
    }

    proof fn lemma_get_addr_is_frame(e: u64) {
        crate::page_table::lemma_entry_bits(0, 0, e, 0, 0, 0);
    }

    proof fn lemma_zero_is_invalid() {
        crate::page_table::lemma_entry_bits(0, 0, 0, 0, 0, 0);
    }

    proof fn lemma_entry_addr(flags: u64, addr: u64) {
        crate::page_table::lemma_entry_bits(flags, addr, 0, 0, 0, 0);
    }

    proof fn lemma_table_entry(addr: u64) {
        crate::page_table::lemma_entry_bits(3, addr, 0, 0, 0, 0);
        lemma_aarch64_flag_values(0, 0, 0, 0);
    }

    proof fn lemma_page_entry(perm: PagePermission, ty: MapType, addr: u64) {
        let f = 0x403u64 | aarch64_perm_bits(perm) | Self::spec_map_type(ty);
        crate::page_table::lemma_entry_bits(f, addr, 0, 0x403, aarch64_perm_bits(perm), Self::spec_map_type(ty));
        lemma_aarch64_flag_values(0, 0, 0, 0);
    }

    proof fn lemma_block_entry(perm: PagePermission, ty: MapType, addr: u64) {
        let f = 0x401u64 | aarch64_perm_bits(perm) | Self::spec_map_type(ty);
        crate::page_table::lemma_entry_bits(f, addr, 0, 0x401, aarch64_perm_bits(perm), Self::spec_map_type(ty));
        lemma_aarch64_flag_values(0, 0, 0, 0);
    }
}

/// A block descriptor is not a table descriptor: blocks end the walk.
pub proof fn lemma_aarch64_block_is_not_table(perm: PagePermission, ty: MapType, addr: u64)
    ensures
        !AArch64Specific::spec_is_table(AArch64Specific::spec_new_entry(
            AArch64Specific::spec_block_default_flags() | AArch64Specific::spec_map_perms(perm)
                | AArch64Specific::spec_map_type(ty), addr)),
{
    let k: u64 = if !perm.is_kernel() { ATTR_AP_1 } else { 0 };
    let w: u64 = if !perm.is_writable() { ATTR_AP_2 } else { 0 };
    let x: u64 = if !perm.is_executable() { ATTR_XN } else { 0 };
    let t = AArch64Specific::spec_map_type(ty);
    lemma_aarch64_flag_values(k, w, x, t);
    let p = aarch64_perm_bits(perm);
    let f = 0x401u64 | p | t;
    crate::page_table::lemma_entry_bits(f, addr, 0, 0x401, p, t);
}

/// The access bits of a descriptor built from default flags `d`, permission
/// bits `k | w | x` and type bits `t`: AP[2] is `w`'s, AP[1] is `k`'s, XN is
/// `x`'s.
proof fn lemma_aarch64_access_bits(d: u64, k: u64, w: u64, x: u64, t: u64, a: u64)
    requires
        d == 0x403 || d == 0x401,
        k == 0 || k == 0x40,
        w == 0 || w == 0x80,
        x == 0 || x == 0x40_0000_0000_0000,
        t == 0 || t == 4 || t == 8,
    ensures
        ((((d | (((0u64 | k) | w) | x)) | t) & !ADDR_MASK) | (a & ADDR_MASK)) & 0x80 != 0 <==> w != 0,
        ((((d | (((0u64 | k) | w) | x)) | t) & !ADDR_MASK) | (a & ADDR_MASK)) & 0x40 != 0 <==> k != 0,
        ((((d | (((0u64 | k) | w) | x)) | t) & !ADDR_MASK) | (a & ADDR_MASK)) & 0x40_0000_0000_0000 != 0 <==> x != 0,
        (((0u64 | k) | w) | x) & 0x80 != 0 <==> w != 0,
        (((0u64 | k) | w) | x) & 0x40 != 0 <==> k != 0,
        (((0u64 | k) | w) | x) & 0x40_0000_0000_0000 != 0 <==> x != 0,
{
    assert(
        (((((d | (((0u64 | k) | w) | x)) | t) & !0x000f_ffff_ffff_f000u64) | (a & 0x000f_ffff_ffff_f000u64)) & 0x80 != 0 <==> w != 0)
        && (((((d | (((0u64 | k) | w) | x)) | t) & !0x000f_ffff_ffff_f000u64) | (a & 0x000f_ffff_ffff_f000u64)) & 0x40 != 0 <==> k != 0)
        && (((((d | (((0u64 | k) | w) | x)) | t) & !0x000f_ffff_ffff_f000u64) | (a & 0x000f_ffff_ffff_f000u64)) & 0x40_0000_0000_0000 != 0 <==> x != 0)
        && ((((0u64 | k) | w) | x) & 0x80 != 0 <==> w != 0)
        && ((((0u64 | k) | w) | x) & 0x40 != 0 <==> k != 0)
        && ((((0u64 | k) | w) | x) & 0x40_0000_0000_0000 != 0 <==> x != 0)) by (bit_vector)
        requires
            d == 0x403 || d == 0x401,
            k == 0 || k == 0x40,
            w == 0 || w == 0x80,
            x == 0 || x == 0x40_0000_0000_0000,
            t == 0 || t == 4 || t == 8;
}

/// Law: an AArch64 page or block descriptor for `perm` is read-only (AP[2],
/// 0x80) exactly when `perm` lacks the write bit, reachable from EL0 (AP[1],
/// 0x40) exactly when it lacks the kernel bit, and execute-never (XN, bit 54)
/// exactly when it lacks the execute bit; so are the permission bits alone.
pub proof fn lemma_aarch64_access_permissions(perm: PagePermission, ty: MapType, phys: u64)
    ensures
        AArch64Specific::spec_map_perms(perm) & 0x80 != 0 <==> perm.bits() & 1 != 1,
        AArch64Specific::spec_map_perms(perm) & 0x40 != 0 <==> perm.bits() & 4 != 4,
        AArch64Specific::spec_map_perms(perm) & 0x40_0000_0000_0000 != 0 <==> perm.bits() & 2 != 2,
        forall|d: u64| #![trigger leaf_entry::<AArch64Specific>(d, perm, ty, phys)]
            d == AArch64Specific::spec_page_default_flags() || d == AArch64Specific::spec_block_default_flags() ==> {
                &&& leaf_entry::<AArch64Specific>(d, perm, ty, phys) & 0x80 != 0 <==> perm.bits() & 1 != 1
                &&& leaf_entry::<AArch64Specific>(d, perm, ty, phys) & 0x40 != 0 <==> perm.bits() & 4 != 4
                &&& leaf_entry::<AArch64Specific>(d, perm, ty, phys) & 0x40_0000_0000_0000 != 0 <==> perm.bits() & 2 != 2
            },
{
    let k: u64 = if !perm.is_kernel() { ATTR_AP_1 } else { 0 };
    let w: u64 = if !perm.is_writable() { ATTR_AP_2 } else { 0 };
    let x: u64 = if !perm.is_executable() { ATTR_XN } else { 0 };
    let t = AArch64Specific::spec_map_type(ty);
    assert(AArch64Specific::spec_map_perms(perm) == ((0u64 | k) | w) | x);
    lemma_aarch64_access_bits(0x403, k, w, x, t, phys);
    lemma_aarch64_access_bits(0x401, k, w, x, t, phys);
}

} // verus!
