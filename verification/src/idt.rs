//! x86-64 interrupt descriptors.
use vstd::prelude::*;

verus! {

/// One 16-byte entry of the interrupt descriptor table.
#[derive(Debug, Copy, Clone)]
pub struct IDTEntry {
    offset_low: u16,
    seg_selector: u16,
    ist: u8,
    type_flags: u8,
    offset_middle: u16,
    offset_high: u32,
    reserved: u32,
}

impl IDTEntry {
    pub closed spec fn spec_offset_low(&self) -> u16 { self.offset_low }
    pub closed spec fn spec_seg_selector(&self) -> u16 { self.seg_selector }
    pub closed spec fn spec_ist(&self) -> u8 { self.ist }
    pub closed spec fn spec_type_flags(&self) -> u8 { self.type_flags }
    pub closed spec fn spec_offset_middle(&self) -> u16 { self.offset_middle }
    pub closed spec fn spec_offset_high(&self) -> u32 { self.offset_high }
    pub closed spec fn spec_reserved(&self) -> u32 { self.reserved }

    /// The handler address stored in the entry.
    pub open spec fn spec_offset(&self) -> u64 {
        self.spec_offset_low() as u64 | (self.spec_offset_middle() as u64) << 16u64
            | (self.spec_offset_high() as u64) << 32u64
    }

    /// The handler address stored in the entry.
    #[verifier::when_used_as_spec(spec_offset)]
    pub fn offset(&self) -> (r: u64)
        ensures
            r == self.spec_offset(),
    {
        self.offset_low as u64 | (self.offset_middle as u64) << 16u64 | (self.offset_high as u64) << 32u64
    }

    /// The code segment selector.
    pub fn seg_selector(&self) -> (r: u16)
        ensures
            r == self.spec_seg_selector(),
    {
        self.seg_selector
    }

    /// The interrupt stack table index.
    pub fn ist(&self) -> (r: u8)
        ensures
            r == self.spec_ist(),
    {
        self.ist
    }

    /// The descriptor type and present bit.
    pub fn type_flags(&self) -> (r: u8)
        ensures
            r == self.spec_type_flags(),
    {
        self.type_flags
    }

    /// The all-zero (not present) entry.
    pub fn null() -> (r: IDTEntry)
        ensures
            r.spec_offset_low() == 0 && r.spec_seg_selector() == 0 && r.spec_ist() == 0,
            r.spec_type_flags() == 0 && r.spec_offset_middle() == 0 && r.spec_offset_high() == 0,
            r.spec_reserved() == 0,
    {
        IDTEntry {
            offset_low: 0,
            seg_selector: 0,
            ist: 0,
            type_flags: 0,
            offset_middle: 0,
            offset_high: 0,
            reserved: 0,
        }
    }

    /// A present 64-bit interrupt gate to `offset` in the kernel code segment (selector 8).
    pub fn new(offset: u64, ist: u8, _flags: u8) -> (r: IDTEntry)
        ensures
            r.spec_offset_low() == (offset & 0xffff) as u16,
            r.spec_seg_selector() == 8,
            r.spec_ist() == ist,
            r.spec_type_flags() == 0x8e,
            r.spec_offset_middle() == ((offset & 0xffff0000) >> 16u64) as u16,
            r.spec_offset_high() == ((offset & 0xffffffff00000000) >> 32u64) as u32,
            r.spec_reserved() == 0,
            r.spec_offset() == offset,
    {
        proof {
            let lo = (offset & 0xffff) as u16;
            let mid = ((offset & 0xffff0000) >> 16u64) as u16;
            let hi = ((offset & 0xffffffff00000000) >> 32u64) as u32;
            assert(lo as u64 | (mid as u64) << 16u64 | (hi as u64) << 32u64 == offset
                && (1u8 << 7u8) | 0b1110u8 == 0x8e) by (bit_vector)
                requires
                    lo == (offset & 0xffff) as u16,
                    mid == ((offset & 0xffff0000) >> 16u64) as u16,
                    hi == ((offset & 0xffffffff00000000) >> 32u64) as u32,
            ;
        }
        IDTEntry {
            offset_low: (offset & 0xffff) as u16,
            seg_selector: 8,
            ist: ist,
            type_flags: (1 << 7) | (0b1110),
            offset_middle: ((offset & 0xffff0000) >> 16) as u16,
            offset_high: ((offset & 0xffffffff00000000) >> 32) as u32,
            reserved: 0,
        }
    }
}

/// The interrupt descriptor table for the handlers at `handlers`: one
/// interrupt gate per handler, in order, on the kernel code segment.
pub fn interrupt_descriptors(handlers: &[u64]) -> (r: Vec<IDTEntry>)
    ensures
        r@.len() == handlers@.len(),
        forall|i: int| #![trigger r@[i]] 0 <= i < r@.len() ==> {
            &&& r@[i].spec_offset() == handlers@[i]
            &&& r@[i].spec_seg_selector() == 8
            &&& r@[i].spec_ist() == 0
            &&& r@[i].spec_type_flags() == 0x8e
            &&& r@[i].spec_reserved() == 0
        },
{
    let mut r: Vec<IDTEntry> = Vec::new();
    let mut i: usize = 0;
    while i < handlers.len()
        invariant
            i <= handlers@.len(),
            r@.len() == i,
            forall|j: int| #![trigger r@[j]] 0 <= j < i ==> {
                &&& r@[j].spec_offset() == handlers@[j]
                &&& r@[j].spec_seg_selector() == 8
                &&& r@[j].spec_ist() == 0
                &&& r@[j].spec_type_flags() == 0x8e
                &&& r@[j].spec_reserved() == 0
            },
        decreases handlers@.len() - i,
    {
        r.push(IDTEntry::new(handlers[i], 0, 0));
        i = i + 1;
    }
    r
}

} // verus!
