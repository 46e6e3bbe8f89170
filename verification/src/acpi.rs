//! ACPI root tables, parsed from the bytes the firmware left in memory.
use vstd::prelude::*;

verus! {

/// The ACPI 1.0 root system description pointer (20 bytes).
#[derive(Debug, Copy, Clone)]
pub struct RSDP32Bit {
    pub magic: [u8; 8],
    pub checksum: u8,
    pub oem_id: [u8; 6],
    pub revision: u8,
    pub rsdt_address: u32,
}

/// The ACPI 2.0 root system description pointer (36 bytes).
#[derive(Debug, Copy, Clone)]
pub struct RSDP64Bit {
    pub magic: [u8; 8],
    pub checksum: u8,
    pub oem_id: [u8; 6],
    pub revision: u8,
    pub rsdt_address: u32,
    pub length: u32,
    pub xsdt_address: u64,
    pub extended_checksum: u8,
    pub padding: [u8; 3],
}

/// A root system description pointer of either revision.
pub enum RSDP {
    Normal(RSDP32Bit),
    Extended(RSDP64Bit),
}

/// The header every ACPI system description table starts with (36 bytes).
#[derive(Debug, Copy, Clone)]
pub struct TableHeader {
    pub signature: [u8; 4],
    pub length: u32,
    pub revision: u8,
    pub checksum: u8,
    pub oem_id: [u8; 6],
    pub oem_table_id: [u8; 8],
    pub oem_revision: u32,
    pub creator_id: u32,
    pub creator_revision: u32,
}

/// The size of a table header.
pub const HEADER_SIZE: usize = 36;

/// The little-endian 32-bit value at `off`.
pub open spec fn le_u32(b: Seq<u8>, off: int) -> u32 {
    (b[off] as int + b[off + 1] as int * 0x100 + b[off + 2] as int * 0x1_0000 + b[off + 3] as int * 0x100_0000) as u32
}

/// Reads the little-endian 32-bit value at `off`.
pub fn read_le_u32(b: &[u8], off: usize) -> (r: u32)
    requires
        off + 4 <= b@.len(),
    ensures
        r == le_u32(b@, off as int),
{
    let (b0, b1, b2, b3) = (b[off], b[off + 1], b[off + 2], b[off + 3]);
    let r = (b0 as u32) | (b1 as u32) << 8u32 | (b2 as u32) << 16u32 | (b3 as u32) << 24u32;
    assert(r == (b0 as int + b1 as int * 0x100 + b2 as int * 0x1_0000 + b3 as int * 0x100_0000) as u32) by (bit_vector)
        requires
            r == (b0 as u32) | (b1 as u32) << 8u32 | (b2 as u32) << 16u32 | (b3 as u32) << 24u32,
    ;
    r
}

/// Parses a revision-0 root system description pointer.
pub fn parse_rsdp(bytes: &[u8]) -> (r: RSDP)
    requires
        bytes@.len() >= 20,
        bytes@[15] == 0,
    ensures
        r matches RSDP::Normal(p) && {
            &&& p.magic@ == bytes@.subrange(0, 8)
            &&& p.checksum == bytes@[8]
            &&& p.oem_id@ == bytes@.subrange(9, 15)
            &&& p.revision == 0
            &&& p.rsdt_address == le_u32(bytes@, 16)
        },
{
    let p = RSDP32Bit {
        magic: [bytes[0], bytes[1], bytes[2], bytes[3], bytes[4], bytes[5], bytes[6], bytes[7]],
        checksum: bytes[8],
        oem_id: [bytes[9], bytes[10], bytes[11], bytes[12], bytes[13], bytes[14]],
        revision: bytes[15],
        rsdt_address: read_le_u32(bytes, 16),
    };
    assert(p.magic@ =~= bytes@.subrange(0, 8));
    assert(p.oem_id@ =~= bytes@.subrange(9, 15));
    RSDP::Normal(p)
}

/// The fields of a table header laid out in `b`.
pub open spec fn header_of(h: TableHeader, b: Seq<u8>) -> bool {
    &&& h.signature@ == b.subrange(0, 4)
    &&& h.length == le_u32(b, 4)
    &&& h.revision == b[8]
    &&& h.checksum == b[9]
    &&& h.oem_id@ == b.subrange(10, 16)
    &&& h.oem_table_id@ == b.subrange(16, 24)
    &&& h.oem_revision == le_u32(b, 24)
    &&& h.creator_id == le_u32(b, 28)
    &&& h.creator_revision == le_u32(b, 32)
}

/// Parses the header of a system description table.
pub fn parse_table(bytes: &[u8]) -> (r: TableHeader)
    requires
        bytes@.len() >= HEADER_SIZE,
    ensures
        header_of(r, bytes@),
{
    let h = TableHeader {
        signature: [bytes[0], bytes[1], bytes[2], bytes[3]],
        length: read_le_u32(bytes, 4),
        revision: bytes[8],
        checksum: bytes[9],
        oem_id: [bytes[10], bytes[11], bytes[12], bytes[13], bytes[14], bytes[15]],
        oem_table_id: [bytes[16], bytes[17], bytes[18], bytes[19], bytes[20], bytes[21], bytes[22], bytes[23]],
        oem_revision: read_le_u32(bytes, 24),
        creator_id: read_le_u32(bytes, 28),
        creator_revision: read_le_u32(bytes, 32),
    };
    assert(h.signature@ =~= bytes@.subrange(0, 4));
    assert(h.oem_id@ =~= bytes@.subrange(10, 16));
    assert(h.oem_table_id@ =~= bytes@.subrange(16, 24));
    h
}

/// The 32-bit table addresses an RSDT of `length` bytes lists after its header.
pub open spec fn rsdt_entries_spec(b: Seq<u8>, length: int) -> Seq<u32> {
    Seq::new(((length - HEADER_SIZE + 3) / 4) as nat, |i: int| le_u32(b, HEADER_SIZE + 4 * i))
}

/// Parses a root system description table: its header and the physical
/// addresses of the tables it lists.
pub fn parse_rsdt(bytes: &[u8]) -> (r: (TableHeader, Vec<u32>))
    requires
        bytes@.len() >= HEADER_SIZE,
        bytes@.subrange(0, 4) == seq![0x52u8, 0x53u8, 0x44u8, 0x54u8],
        le_u32(bytes@, 4) >= HEADER_SIZE,
        bytes@.len() >= le_u32(bytes@, 4) + 3,
    ensures
        header_of(r.0, bytes@),
        r.1@ == rsdt_entries_spec(bytes@, r.0.length as int),
{
    let header = parse_table(bytes);
    let end = header.length as usize;
    let mut entries: Vec<u32> = Vec::new();
    let mut i: usize = HEADER_SIZE;
    while i < end
        invariant
            HEADER_SIZE <= i,
            i <= end + 3,
            (i - HEADER_SIZE) % 4 == 0,
            end == header.length,
            header_of(header, bytes@),
            bytes@.len() >= end + 3,
            bytes@.len() == bytes.len(),
            entries@.len() == (i - HEADER_SIZE) / 4,
            forall|j: int| 0 <= j < entries@.len() ==> entries@[j] == le_u32(bytes@, HEADER_SIZE + 4 * j),
        decreases end + 3 - i,
    {
        let location = read_le_u32(bytes, i);
        entries.push(location);
        i = i + 4;
    }
    assert(entries@ =~= rsdt_entries_spec(bytes@, header.length as int));
    (header, entries)
}

} // verus!
