//! The processor identification that the `cpuid` instruction reports.
use vstd::prelude::*;

verus! {

/// Byte `j` (0 is the lowest) of `x`.
pub open spec fn le_byte(x: u32, j: int) -> u8 {
    ((x >> ((8 * j) as u32)) & 0xff) as u8
}

/// The 12-byte vendor string of leaf 0: the bytes of `ebx`, then `edx`, then
/// `ecx`, each stored little-endian.
pub fn get_vendor(ebx: u32, edx: u32, ecx: u32) -> (r: [u8; 12])
    ensures
        forall|j: int| 0 <= j < 4 ==> r[j] == le_byte(ebx, j),
        forall|j: int| 0 <= j < 4 ==> r[4 + j] == le_byte(edx, j),
        forall|j: int| 0 <= j < 4 ==> r[8 + j] == le_byte(ecx, j),
{
    let r = [
        (ebx & 0xff) as u8, ((ebx >> 8) & 0xff) as u8, ((ebx >> 16) & 0xff) as u8, ((ebx >> 24) & 0xff) as u8,
        (edx & 0xff) as u8, ((edx >> 8) & 0xff) as u8, ((edx >> 16) & 0xff) as u8, ((edx >> 24) & 0xff) as u8,
        (ecx & 0xff) as u8, ((ecx >> 8) & 0xff) as u8, ((ecx >> 16) & 0xff) as u8, ((ecx >> 24) & 0xff) as u8,
    ];
    assert forall|j: int| 0 <= j < 4 implies r[j] == le_byte(ebx, j) && r[4 + j] == le_byte(edx, j)
        && r[8 + j] == le_byte(ecx, j) by {
        assert(j == 0 || j == 1 || j == 2 || j == 3);
        assert((ebx >> 0u32) == ebx && (edx >> 0u32) == edx && (ecx >> 0u32) == ecx) by (bit_vector);
    }
    r
}

/// Whether leaf 1 reports a hypervisor: bit 31 of `ecx`.
pub fn is_hypervisor_present(ecx: u32) -> (r: bool)
    ensures
        r == (ecx >= 0x8000_0000),
{
    assert((ecx & (1u32 << 31u32)) != 0 <==> ecx >= 0x8000_0000) by (bit_vector);
    (ecx & (1 << 31)) != 0
}

} // verus!
