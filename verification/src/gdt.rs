//! x86-64 segment descriptors and the task-state segment.
use vstd::prelude::*;

verus! {

/// One 8-byte entry of the global descriptor table.
#[derive(Debug, Copy, Clone)]
pub struct GDTEntry {
    limit_low: u16,
    base_low: u16,
    base_middle: u8,
    access: u8,
    flags_limit: u8,
    base_high: u8,
}

/// The 64-bit task-state segment.
#[derive(Debug, Copy, Clone)]
pub struct TSS {
    pub reserved_0: u32,
    pub rsp0: u64,
    pub rsp1: u64,
    pub rsp2: u64,
    pub reserved_1: u64,
    pub ist: [u64; 7],
    pub reserved_2: u64,
    pub reserved_3: u16,
    pub iomap_base: u16,
}

impl TSS {
    /// A task-state segment with every field zero except the I/O map base,
    /// which points just past the segment (104).
    #[allow(non_snake_case)]
    pub fn DEFAULT() -> (r: TSS)
        ensures
            r.reserved_0 == 0,
            r.rsp0 == 0 && r.rsp1 == 0 && r.rsp2 == 0,
            r.reserved_1 == 0 && r.reserved_2 == 0 && r.reserved_3 == 0,
            forall|i: int| 0 <= i < 7 ==> r.ist[i] == 0,
            r.iomap_base == 104,
    {
        TSS {
            reserved_0: 0,
            rsp0: 0,
            rsp1: 0,
            rsp2: 0,
            reserved_1: 0,
            ist: [0, 0, 0, 0, 0, 0, 0],
            reserved_2: 0,
            reserved_3: 0,
            iomap_base: 104,
        }
    }
}

impl GDTEntry {
    pub closed spec fn spec_limit_low(&self) -> u16 { self.limit_low }
    pub closed spec fn spec_base_low(&self) -> u16 { self.base_low }
    pub closed spec fn spec_base_middle(&self) -> u8 { self.base_middle }
    pub closed spec fn spec_access(&self) -> u8 { self.access }
    pub closed spec fn spec_flags_limit(&self) -> u8 { self.flags_limit }
    pub closed spec fn spec_base_high(&self) -> u8 { self.base_high }

    /// The descriptor as the processor reads it: the six fields packed
    /// little-endian into one 64-bit word.
    pub open spec fn spec_raw(&self) -> u64 {
        self.spec_limit_low() as u64
            | (self.spec_base_low() as u64) << 16u64
            | (self.spec_base_middle() as u64) << 32u64
            | (self.spec_access() as u64) << 40u64
            | (self.spec_flags_limit() as u64) << 48u64
            | (self.spec_base_high() as u64) << 56u64
    }

    /// The descriptor as one 64-bit word.
    #[verifier::when_used_as_spec(spec_raw)]
    pub fn raw(&self) -> (r: u64)
        ensures
            r == self.spec_raw(),
    {
        self.limit_low as u64
            | (self.base_low as u64) << 16u64
            | (self.base_middle as u64) << 32u64
            | (self.access as u64) << 40u64
            | (self.flags_limit as u64) << 48u64
            | (self.base_high as u64) << 56u64
    }

    /// The all-zero entry.
    #[allow(non_snake_case)]
    pub fn DEFAULT() -> (r: GDTEntry)
        ensures
            r.spec_limit_low() == 0 && r.spec_base_low() == 0 && r.spec_base_middle() == 0,
            r.spec_access() == 0 && r.spec_flags_limit() == 0 && r.spec_base_high() == 0,
    {
        GDTEntry { limit_low: 0, base_low: 0, base_middle: 0, access: 0, flags_limit: 0, base_high: 0 }
    }

    /// The null descriptor.
    pub fn null() -> (r: GDTEntry)
        ensures
            r.spec_limit_low() == 0 && r.spec_base_low() == 0 && r.spec_base_middle() == 0,
            r.spec_access() == 0 && r.spec_flags_limit() == 0 && r.spec_base_high() == 0,
    {
        GDTEntry::DEFAULT()
    }

    /// A code or data segment with 4 KiB granularity: 64-bit code when
    /// `long_mode`, 32-bit default operand size otherwise.
    pub fn new(base: u32, limit: u32, access: u8, long_mode: bool) -> (r: GDTEntry)
        ensures
            r.spec_limit_low() == (limit & 0xffff) as u16,
            r.spec_base_low() == (base & 0xffff) as u16,
            r.spec_base_middle() == ((base & 0xff0000) >> 16u32) as u8,
            r.spec_access() == access,
            r.spec_flags_limit() == ((limit & 0xf0000) >> 16u32) as u8 | (if long_mode { 0xa0u8 } else { 0xc0u8 }),
            r.spec_base_high() == ((base & 0xff000000) >> 24u32) as u8,
    {
        // granularity (bit 3) always; long mode (bit 1) or 32-bit size (bit 2)
        proof {
            lemma_descriptor_flag_bits();
        }
        let mut flags: u8 = 1 << 3;
        if long_mode {
            flags = flags | (1 << 1);
        } else {
            flags = flags | (1 << 2);
        }
        let shifted: u8 = flags << 4;
        GDTEntry {
            limit_low: (limit & 0xffff) as u16,
            base_low: (base & 0xffff) as u16,
            base_middle: ((base & 0xff0000) >> 16) as u8,
            access: access,
            flags_limit: ((limit & 0xf0000) >> 16) as u8 | shifted,
            base_high: ((base & 0xff000000) >> 24) as u8,
        }
    }

    /// The low half of a 64-bit TSS descriptor (access byte 0xe9).
    pub fn new_tss_low(tss_location: u64, limit: u64) -> (r: GDTEntry)
        ensures
            r.spec_limit_low() == (limit & 0xffff) as u16,
            r.spec_base_low() == (tss_location & 0xffff) as u16,
            r.spec_base_middle() == ((tss_location & 0xff0000) >> 16u64) as u8,
            r.spec_access() == 0xe9,
            r.spec_flags_limit() == ((limit & 0xf0000) >> 16u64) as u8,
            r.spec_base_high() == ((tss_location & 0xff000000) >> 24u64) as u8,
    {
        GDTEntry {
            limit_low: (limit & 0xffff) as u16,
            base_low: (tss_location & 0xffff) as u16,
            base_middle: ((tss_location & 0xff0000) >> 16) as u8,
            access: 0xe9,
            flags_limit: ((limit & 0xf0000) >> 16) as u8,
            base_high: ((tss_location & 0xff000000) >> 24) as u8,
        }
    }

    /// The high half of a 64-bit TSS descriptor: bits 32..64 of the base.
    pub fn new_tss_high(tss_location: u64, _limit: u64) -> (r: GDTEntry)
        ensures
            r.spec_limit_low() == ((tss_location & 0x0000ffff00000000) >> 32u64) as u16,
            r.spec_base_low() == ((tss_location & 0xffff000000000000) >> 48u64) as u16,
            r.spec_base_middle() == 0,
            r.spec_access() == 0,
            r.spec_flags_limit() == 0,
            r.spec_base_high() == 0,
    {
        GDTEntry {
            limit_low: ((tss_location & 0x0000ffff00000000) >> 32) as u16,
            base_low: ((tss_location & 0xffff000000000000) >> 48) as u16,
            base_middle: 0,
            access: 0,
            flags_limit: 0,
            base_high: 0,
        }
    }
}

/// The flag nibbles of code and data descriptors.
proof fn lemma_descriptor_flag_bits()
    by (bit_vector)
    ensures
        (1u8 << 3u8) | (1u8 << 1u8) == 0xa,
        (1u8 << 3u8) | (1u8 << 2u8) == 0xc,
        (0xau8 << 4u8) == 0xa0,
        (0xcu8 << 4u8) == 0xc0,
{
}

/// The limit field of a descriptor-table register for `count` entries of
/// `entry_size` bytes: the table size minus one, truncated to 16 bits.
pub fn table_limit(count: usize, entry_size: usize) -> (r: u16)
    requires
        count >= 1,
        entry_size >= 1,
        count * entry_size <= usize::MAX,
    ensures
        r as int == (count * entry_size - 1) % 0x10000,
{
    proof {
        vstd::arithmetic::mul::lemma_mul_increases(entry_size as int, count as int);
    }
    let size = count * entry_size - 1;
    let r = (size & 0xffff) as u16;
    assert(size & 0xffff == size % 0x10000) by (bit_vector);
    r
}

/// The six fields of a descriptor, in memory order.
pub open spec fn fields(e: GDTEntry) -> (u16, u16, u8, u8, u8, u8) {
    (e.spec_limit_low(), e.spec_base_low(), e.spec_base_middle(), e.spec_access(), e.spec_flags_limit(), e.spec_base_high())
}

/// The limit of the 104-byte task-state segment.
pub const TSS_LIMIT: u64 = 103;

/// The kernel's descriptor table: null; kernel code (selector 0x08, 64-bit)
/// and data (0x10); an unused slot (0x18); user data (0x20) and user code
/// (0x28, 64-bit), both at privilege 3; and the two halves of the
/// task-state segment at `tss_location` (0x30).
pub fn kernel_gdt(tss_location: u64) -> (r: [GDTEntry; 8])
    ensures
        fields(r[0]) == (0u16, 0u16, 0u8, 0u8, 0u8, 0u8),
        fields(r[1]) == (0xffffu16, 0u16, 0u8, 0x9au8, 0xafu8, 0u8),
        fields(r[2]) == (0xffffu16, 0u16, 0u8, 0x92u8, 0xcfu8, 0u8),
        fields(r[3]) == (0u16, 0u16, 0u8, 0u8, 0u8, 0u8),
        fields(r[4]) == (0xffffu16, 0u16, 0u8, 0xf2u8, 0xcfu8, 0u8),
        fields(r[5]) == (0xffffu16, 0u16, 0u8, 0xfau8, 0xafu8, 0u8),
        fields(r[6]) == ((TSS_LIMIT & 0xffff) as u16, (tss_location & 0xffff) as u16,
            ((tss_location & 0xff0000) >> 16u64) as u8, 0xe9u8, ((TSS_LIMIT & 0xf0000) >> 16u64) as u8,
            ((tss_location & 0xff000000) >> 24u64) as u8),
        fields(r[7]) == (((tss_location & 0x0000ffff00000000) >> 32u64) as u16,
            ((tss_location & 0xffff000000000000) >> 48u64) as u16, 0u8, 0u8, 0u8, 0u8),
{
    let kernel_code: u8 = (1 << 7) | (1 << 4) | (1 << 3) | (1 << 1);
    let kernel_data: u8 = (1 << 7) | (1 << 4) | (1 << 1);
    let user_data: u8 = (1 << 7) | (3 << 5) | (1 << 4) | (1 << 1);
    let user_code: u8 = (1 << 7) | (3 << 5) | (1 << 4) | (1 << 3) | (1 << 1);
    assert(kernel_code == 0x9a && kernel_data == 0x92 && user_data == 0xf2 && user_code == 0xfa
        && (0xfffffu32 & 0xffff) as u16 == 0xffff && ((0xfffffu32 & 0xf0000) >> 16u32) as u8 == 0xf
        && 0xfu8 | 0xa0u8 == 0xaf && 0xfu8 | 0xc0u8 == 0xcf && (0u32 & 0xffff) as u16 == 0
        && ((0u32 & 0xff0000) >> 16u32) as u8 == 0 && ((0u32 & 0xff000000) >> 24u32) as u8 == 0) by (bit_vector)
        requires
            kernel_code == (1u8 << 7u8) | (1u8 << 4u8) | (1u8 << 3u8) | (1u8 << 1u8),
            kernel_data == (1u8 << 7u8) | (1u8 << 4u8) | (1u8 << 1u8),
            user_data == (1u8 << 7u8) | (3u8 << 5u8) | (1u8 << 4u8) | (1u8 << 1u8),
            user_code == (1u8 << 7u8) | (3u8 << 5u8) | (1u8 << 4u8) | (1u8 << 3u8) | (1u8 << 1u8),
    ;
    [
        GDTEntry::null(),
        GDTEntry::new(0, 0xfffff, kernel_code, true),
        GDTEntry::new(0, 0xfffff, kernel_data, false),
        GDTEntry::null(),
        GDTEntry::new(0, 0xfffff, user_data, false),
        GDTEntry::new(0, 0xfffff, user_code, true),
        GDTEntry::new_tss_low(tss_location, TSS_LIMIT),
        GDTEntry::new_tss_high(tss_location, TSS_LIMIT),
    ]
}

/// The filler written to the stack pointers that must never be used.
pub const UNUSED_STACK: u64 = 0xaaaa_aaaa_aaaa_aaaa;

/// The kernel's task-state segment: interrupts from user mode switch to
/// `interrupt_stack_top`; the other stack slots hold a filler value.
pub fn kernel_tss(interrupt_stack_top: u64) -> (r: TSS)
    ensures
        r.rsp0 == interrupt_stack_top,
        r.rsp1 == UNUSED_STACK && r.rsp2 == UNUSED_STACK,
        forall|i: int| 0 <= i < 7 ==> r.ist[i] == UNUSED_STACK,
        r.reserved_0 == 0 && r.reserved_1 == 0 && r.reserved_2 == 0 && r.reserved_3 == 0,
        r.iomap_base == 104,
{
    let mut tss = TSS::DEFAULT();
    tss.rsp0 = interrupt_stack_top;
    tss.rsp1 = UNUSED_STACK;
    tss.rsp2 = UNUSED_STACK;
    tss.ist = [UNUSED_STACK, UNUSED_STACK, UNUSED_STACK, UNUSED_STACK, UNUSED_STACK, UNUSED_STACK, UNUSED_STACK];
    tss
}

} // verus!
