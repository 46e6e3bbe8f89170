//! The x86-64 four-level paging entry format.
use vstd::prelude::*;
use crate::types::{PhysAddr, PagePermission, MapType};
use crate::page_table::{PageTableSpecific, ADDR_MASK, leaf_entry};

verus! {

/// Present.
const VALID: u64 = 1;
/// Writes allowed.
const WRITABLE: u64 = 2;
/// User-mode accesses allowed.
const USER: u64 = 4;
/// Page-level write-through.
#[allow(dead_code)]
const WRITE_THROUGH: u64 = 8;
/// Page-level cache disable.
const UNCACHEABLE: u64 = 0x10;
/// Accessed.
const ACCESS: u64 = 0x20;
/// Dirty.
#[allow(dead_code)]
const DIRTY: u64 = 0x40;
/// Page size: the entry maps a 2 MiB or 1 GiB block.
const TYPE_BLOCK: u64 = 0x80;
/// Tables leave the page-size bit clear.
const TYPE_TABLE: u64 = 0;
/// Page attribute table bit of a 4 KiB page entry.
#[allow(dead_code)]
const PAT: u64 = 0x80;
/// Global translation.
#[allow(dead_code)]
const GLOBAL: u64 = 0x100;
/// Execute-disable.
const XN: u64 = 0x8000_0000_0000_0000;

/// The x86-64 entry encoding.
pub struct X86_64Specific {}

/// The permission bits of an x86-64 entry: user-accessible unless
/// kernel-only, writable when writable, execute-disable unless executable.
pub open spec fn x86_perm_bits(perm: PagePermission) -> u64 {
    ((0u64 | (if !perm.is_kernel() { 4u64 } else { 0u64 }))
        | (if perm.is_writable() { 2u64 } else { 0u64 }))
        | (if !perm.is_executable() { 0x8000_0000_0000_0000u64 } else { 0u64 })
}

/// The values of the entry flag combinations.
proof fn lemma_x86_flag_values()
    ensures
        VALID | ACCESS == 0x21,
        VALID | TYPE_TABLE | WRITABLE | USER == 0x7,
        VALID | TYPE_BLOCK | ACCESS == 0xa1,
        0x21u64 & 1 == 1,
        7u64 & 1 == 1,
        0xa1u64 & 1 == 1,
{
    assert(VALID | ACCESS == 0x21
        && VALID | TYPE_TABLE | WRITABLE | USER == 0x7
        && VALID | TYPE_BLOCK | ACCESS == 0xa1
        && 0x21u64 & 1 == 1 && 7u64 & 1 == 1 && 0xa1u64 & 1 == 1) by (bit_vector);
}

/// The page-size bit of an entry built from default flags `d`, permission
/// bits and type bits is that of `d`.
proof fn lemma_x86_type_bit(d: u64, perm: PagePermission, ty: MapType, a: u64)
    ensures
        (((d | x86_perm_bits(perm) | X86_64Specific::spec_map_type(ty)) & !ADDR_MASK) | (a & ADDR_MASK)) & 0x80
            == d & 0x80,
{
    let k: u64 = if !perm.is_kernel() { 4u64 } else { 0u64 };
    let w: u64 = if perm.is_writable() { 2u64 } else { 0u64 };
    let x: u64 = if !perm.is_executable() { 0x8000_0000_0000_0000u64 } else { 0u64 };
    let t = X86_64Specific::spec_map_type(ty);
    assert(x86_perm_bits(perm) == ((0u64 | k) | w) | x);
    assert((((d | (((0u64 | k) | w) | x) | t) & !0x000f_ffff_ffff_f000u64) | (a & 0x000f_ffff_ffff_f000u64)) & 0x80
        == d & 0x80) by (bit_vector)
        requires
            k == 0 || k == 4,
            w == 0 || w == 2,
            x == 0 || x == 0x8000_0000_0000_0000u64,
            t == 0 || t == 0x10;
}

impl PageTableSpecific for X86_64Specific {
    /// Bit 0 is the present bit.
    open spec fn spec_is_valid(e: u64) -> bool {
        e & 1 != 0
    }

    /// Bit 7 (page size) is clear in table entries and set in block entries.
    open spec fn spec_is_table(e: u64) -> bool {
        e & 0x80 == 0
    }

    open spec fn spec_map_perms(perm: PagePermission) -> u64 {
        x86_perm_bits(perm)
    }

    open spec fn spec_map_type(ty: MapType) -> u64 {
        match ty {
            MapType::NormalCachable => 0,
            MapType::NormalUncachable => 0x10,
            MapType::Device => 0x10,
        }
    }

    open spec fn spec_page_default_flags() -> u64 {
        0x21
    }

    open spec fn spec_table_default_flags() -> u64 {
        0x7
    }

    open spec fn spec_block_default_flags() -> u64 {
        0xa1
    }

    open spec fn spec_new_entry(flags: u64, addr: u64) -> u64 {
        (flags & !ADDR_MASK) | (addr & ADDR_MASK)
    }

    open spec fn spec_get_addr(e: u64) -> u64 {
        e & ADDR_MASK
    }

    fn is_valid(e: u64) -> (r: bool) {
        (e & VALID) != 0
    }

    fn is_table(e: u64) -> (r: bool) {
        (e & TYPE_BLOCK) == TYPE_TABLE
    }

    fn map_perms(perm: PagePermission) -> (r: u64) {
        let mut flags: u64 = 0;
        flags = flags | (if !perm.contains(PagePermission::KERNEL()) { USER } else { 0 });
        flags = flags | (if perm.contains(PagePermission::WRITE()) { WRITABLE } else { 0 });
        flags = flags | (if !perm.contains(PagePermission::EXECUTE()) { XN } else { 0 });
        flags
    }

    fn map_type(ty: MapType) -> (r: u64) {
        match ty {
            MapType::NormalCachable => 0,
            MapType::NormalUncachable => UNCACHEABLE,
            MapType::Device => UNCACHEABLE,
        }
    }

    fn get_page_default_flags() -> (r: u64) {
        proof {
            lemma_x86_flag_values();
        }
        VALID | ACCESS
    }

    fn get_table_default_flags() -> (r: u64) {
        proof {
            lemma_x86_flag_values();
        }
        VALID | TYPE_TABLE | WRITABLE | USER
    }

    fn get_block_default_flags() -> (r: u64) {
        proof {
            lemma_x86_flag_values();
        }
        VALID | TYPE_BLOCK | ACCESS
    }

    fn new_entry(flags: u64, addr: PhysAddr) -> (r: u64) {
        (flags & !ADDR_MASK) | (addr.0 & ADDR_MASK)
    }

    fn get_addr(e: u64) -> (r: PhysAddr) {
        PhysAddr(e & ADDR_MASK)
    }

    proof fn lemma_get_addr_is_frame(e: u64) {
        crate::page_table::lemma_entry_bits(0, 0, e, 0, 0, 0);
    }

    proof fn lemma_zero_is_invalid() {
        crate::page_table::lemma_entry_bits(0, 0, 0, 0, 0, 0);
    }

    proof fn lemma_entry_addr(flags: u64, addr: u64) {
        crate::page_table::lemma_entry_bits(flags, addr, 0, 0, 0, 0);
    }

    proof fn lemma_table_entry(addr: u64) {
        let e = (7u64 & !ADDR_MASK) | (addr & ADDR_MASK);
        crate::page_table::lemma_entry_bits(7, addr, 0, 0, 0, 0);
        crate::page_table::lemma_entry_bits(0, 0, e, 0, 0, 0);
        lemma_x86_flag_values();
        assert(e & 0x80 == 0) by (bit_vector)
            requires e == (7u64 & !0x000f_ffff_ffff_f000u64) | (addr & 0x000f_ffff_ffff_f000u64);
    }

    proof fn lemma_page_entry(perm: PagePermission, ty: MapType, addr: u64) {
        let (p, t) = (x86_perm_bits(perm), Self::spec_map_type(ty));
        let f = 0x21u64 | p | t;
        let e = (f & !ADDR_MASK) | (addr & ADDR_MASK);
        crate::page_table::lemma_entry_bits(f, addr, 0, 0x21, p, t);
        crate::page_table::lemma_entry_bits(0, 0, e, 0, 0, 0);
        lemma_x86_flag_values();
        lemma_x86_type_bit(0x21, perm, ty, addr);
        assert(0x21u64 & 0x80 == 0) by (bit_vector);
    }

    proof fn lemma_block_entry(perm: PagePermission, ty: MapType, addr: u64) {
        let (p, t) = (x86_perm_bits(perm), Self::spec_map_type(ty));
        let f = 0xa1u64 | p | t;
        crate::page_table::lemma_entry_bits(f, addr, 0, 0xa1, p, t);
        lemma_x86_flag_values();
    }
}

/// A block entry has the page-size bit set: blocks end the walk.
pub proof fn lemma_x86_block_is_not_table(perm: PagePermission, ty: MapType, addr: u64)
    ensures
        !X86_64Specific::spec_is_table(X86_64Specific::spec_new_entry(
            X86_64Specific::spec_block_default_flags() | X86_64Specific::spec_map_perms(perm)
                | X86_64Specific::spec_map_type(ty), addr)),
{
    lemma_x86_type_bit(0xa1, perm, ty, addr);
    assert(0xa1u64 & 0x80 == 0x80) by (bit_vector);
}

/// The access bits of an entry built from default flags `d`, permission
/// bits `k | w | x` and type bits `t`: WRITABLE is `w`'s, USER is `k`'s,
/// execute-disable is `x`'s.
proof fn lemma_x86_access_bits(d: u64, k: u64, w: u64, x: u64, t: u64, a: u64)
    requires
        d == 0x21 || d == 0xa1,
        k == 0 || k == 4,
        w == 0 || w == 2,
        x == 0 || x == 0x8000_0000_0000_0000,
        t == 0 || t == 0x10,
    ensures
        ((((d | (((0u64 | k) | w) | x)) | t) & !ADDR_MASK) | (a & ADDR_MASK)) & 2 != 0 <==> w != 0,
        ((((d | (((0u64 | k) | w) | x)) | t) & !ADDR_MASK) | (a & ADDR_MASK)) & 4 != 0 <==> k != 0,
        ((((d | (((0u64 | k) | w) | x)) | t) & !ADDR_MASK) | (a & ADDR_MASK)) & 0x8000_0000_0000_0000 != 0 <==> x != 0,
        (((0u64 | k) | w) | x) & 2 != 0 <==> w != 0,
        (((0u64 | k) | w) | x) & 4 != 0 <==> k != 0,
        (((0u64 | k) | w) | x) & 0x8000_0000_0000_0000 != 0 <==> x != 0,
{
    assert(
        (((((d | (((0u64 | k) | w) | x)) | t) & !0x000f_ffff_ffff_f000u64) | (a & 0x000f_ffff_ffff_f000u64)) & 2 != 0 <==> w != 0)
        && (((((d | (((0u64 | k) | w) | x)) | t) & !0x000f_ffff_ffff_f000u64) | (a & 0x000f_ffff_ffff_f000u64)) & 4 != 0 <==> k != 0)
        && (((((d | (((0u64 | k) | w) | x)) | t) & !0x000f_ffff_ffff_f000u64) | (a & 0x000f_ffff_ffff_f000u64)) & 0x8000_0000_0000_0000 != 0 <==> x != 0)
        && ((((0u64 | k) | w) | x) & 2 != 0 <==> w != 0)
        && ((((0u64 | k) | w) | x) & 4 != 0 <==> k != 0)
        && ((((0u64 | k) | w) | x) & 0x8000_0000_0000_0000 != 0 <==> x != 0)) by (bit_vector)
        requires
            d == 0x21 || d == 0xa1,
            k == 0 || k == 4,
            w == 0 || w == 2,
            x == 0 || x == 0x8000_0000_0000_0000,
            t == 0 || t == 0x10;
}

/// Law: an x86-64 page or block entry for `perm` is writable (bit 1)
/// exactly when `perm` has the write bit, user-accessible (bit 2) exactly
/// when it lacks the kernel bit, and execute-disable (bit 63) exactly when it
/// lacks the execute bit; so are the permission bits alone.
pub proof fn lemma_x86_access_permissions(perm: PagePermission, ty: MapType, phys: u64)
    ensures
        X86_64Specific::spec_map_perms(perm) & 2 != 0 <==> perm.bits() & 1 == 1,
        X86_64Specific::spec_map_perms(perm) & 4 != 0 <==> perm.bits() & 4 != 4,
        X86_64Specific::spec_map_perms(perm) & 0x8000_0000_0000_0000 != 0 <==> perm.bits() & 2 != 2,
        forall|d: u64| #![trigger leaf_entry::<X86_64Specific>(d, perm, ty, phys)]
            d == X86_64Specific::spec_page_default_flags() || d == X86_64Specific::spec_block_default_flags() ==> {
                &&& leaf_entry::<X86_64Specific>(d, perm, ty, phys) & 2 != 0 <==> perm.bits() & 1 == 1
                &&& leaf_entry::<X86_64Specific>(d, perm, ty, phys) & 4 != 0 <==> perm.bits() & 4 != 4
                &&& leaf_entry::<X86_64Specific>(d, perm, ty, phys) & 0x8000_0000_0000_0000 != 0 <==> perm.bits() & 2 != 2
            },
{
    let k: u64 = if !perm.is_kernel() { 4u64 } else { 0u64 };
    let w: u64 = if perm.is_writable() { 2u64 } else { 0u64 };
    let x: u64 = if !perm.is_executable() { 0x8000_0000_0000_0000u64 } else { 0u64 };
    let t = X86_64Specific::spec_map_type(ty);
    assert(X86_64Specific::spec_map_perms(perm) == ((0u64 | k) | w) | x);
    lemma_x86_access_bits(0x21, k, w, x, t, phys);
    lemma_x86_access_bits(0xa1, k, w, x, t, phys);
}

} // verus!
