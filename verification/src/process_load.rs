//! Loading a user program: which regions its ELF image asks for.
use vstd::prelude::*;
use elf_rs::ElfFile;
use crate::types::PagePermission;
use crate::memory::{AddressSpace, RegionError, create_refusal};
use crate::page_table::{PageTableSpecific, PhysAlloc, TableMemory};

verus! {

/// One section header of an ELF image, as the loader reads it.
#[derive(Debug, Copy, Clone)]
pub struct ElfSection {
    /// The section holds program data (`SHT_PROGBITS`).
    pub progbits: bool,
    pub flags: u64,
    pub addr: u64,
    pub offset: u64,
    pub size: u64,
}

/// The parts of a 64-bit ELF image the loader uses.
pub struct ElfImage {
    pub entry: u64,
    pub sections: Vec<ElfSection>,
}

/// A section header as plain values.
pub open spec fn section_view(s: ElfSection) -> (bool, u64, u64, u64, u64) {
    (s.progbits, s.flags, s.addr, s.offset, s.size)
}

impl ElfImage {
    /// The entry point and the section headers as plain values.
    pub open spec fn view(&self) -> (u64, Seq<(bool, u64, u64, u64, u64)>) {
        (self.entry, self.sections@.map_values(|s: ElfSection| section_view(s)))
    }
}

/// What `elf_rs` reads from the bytes of a 64-bit ELF file: the entry point
/// and, for each section header, whether it is `SHT_PROGBITS`, its flags,
/// address, file offset and size; `None` where the bytes are no 64-bit ELF file.
/// `elf_rs` reads each header field in the byte order of the machine it runs
/// on, not the one the file declares.
pub uninterp spec fn elf64_parse(bytes: Seq<u8>) -> Option<(u64, Seq<(bool, u64, u64, u64, u64)>)>;

/// The ELF magic number.
pub open spec fn has_elf_magic(b: Seq<u8>) -> bool {
    b.len() >= 4 && b[0] == 0x7f && b[1] == 0x45 && b[2] == 0x4c && b[3] == 0x46
}

/// The section header table offset (bytes `0x28..0x30` of a 64-bit header)
/// is a multiple of 8 in either byte order: its first and last byte are.
/// `elf_rs` reads the table in place as 8-byte aligned records.
pub open spec fn section_table_aligned(b: Seq<u8>) -> bool {
    b.len() >= 0x30 ==> b[0x28] % 8 == 0 && b[0x2f] % 8 == 0
}

/// Reads a 64-bit ELF image with `elf_rs::Elf::from_bytes`, its header's
/// `entry_point` and its `section_header_iter`, after copying `buf` into
/// `scratch`, 8-byte aligned storage viewed as bytes with
/// `bytemuck::cast_slice_mut`, so that the headers `elf_rs` reads in place
/// are aligned. The result is `elf64_parse` of the bytes; `elf_rs` refuses
/// a buffer without the ELF magic or shorter than a 64-bit header (64
/// bytes), and a 32-bit image gives `None` here.
#[verifier::external_body]
fn read_elf64(buf: &[u8], scratch: Vec<u64>) -> (r: Option<ElfImage>)
    requires
        buf@.len() <= scratch@.len() * 8,
        section_table_aligned(buf@),
    ensures
        r matches Some(img) ==> elf64_parse(buf@) == Some(img.view()),
        r is None ==> elf64_parse(buf@) is None,
        !has_elf_magic(buf@) || buf@.len() < 64 ==> r is None,
{
    let mut words = scratch;
    let bytes = &mut bytemuck::cast_slice_mut::<u64, u8>(&mut words)[..buf.len()];
    bytes.copy_from_slice(buf);
    let Ok(elf_rs::Elf::Elf64(e)) = elf_rs::Elf::from_bytes(bytes) else { return None };
    let mut sections = Vec::new();
    for s in e.section_header_iter() {
        let progbits = matches!(s.sh_type(), elf_rs::SectionType::SHT_PROGBITS);
        sections.push(ElfSection { progbits, flags: s.flags().bits(), addr: s.addr(), offset: s.offset(), size: s.size() });
    }
    Some(ElfImage { entry: e.elf_header().entry_point(), sections })
}

/// Zeroed 8-byte words enough to hold `len` bytes.
fn scratch_words(len: usize) -> (r: Vec<u64>)
    ensures
        len <= r@.len() * 8,
{
    let n = len / 8 + 1;
    let mut v: Vec<u64> = Vec::new();
    while v.len() < n
        invariant
            v@.len() <= n,
        decreases n - v.len(),
    {
        v.push(0);
    }
    v
}

/// `SHF_ALLOC`: the section occupies memory at run time.
pub const SHF_ALLOC: u64 = 0x2;
/// `SHF_EXECINSTR`: the section holds instructions.
pub const SHF_EXECINSTR: u64 = 0x4;
/// Where the user stack is mapped, and its size.
pub const USER_STACK_BASE: u64 = 0x40000000;
pub const USER_STACK_SIZE: u64 = 0x4000;

/// A region to create in the new address space and fill from the file.
#[derive(Debug, Copy, Clone)]
pub struct SectionLoad {
    pub start: u64,
    pub size: u64,
    pub file_offset: u64,
    pub permission: PagePermission,
}

/// The loader's plan for an image.
pub struct LoadPlan {
    pub entry: u64,
    pub sections: Vec<SectionLoad>,
    pub stack_base: u64,
    pub stack_size: u64,
}

/// Whether a section is loaded: program data that occupies memory.
pub open spec fn is_loaded(s: (bool, u64, u64, u64, u64)) -> bool {
    s.0 && s.1 & SHF_ALLOC == SHF_ALLOC
}

/// The region a loaded section gets: read-write-execute for code,
/// read-write otherwise, all user-accessible.
pub open spec fn load_of(s: (bool, u64, u64, u64, u64)) -> (u64, u64, u64, u64) {
    (s.2, s.4, s.3, if s.1 & SHF_EXECINSTR == SHF_EXECINSTR { 3u64 } else { 1u64 })
}

/// The regions for the loaded sections, in section order.
pub open spec fn loads_spec(secs: Seq<(bool, u64, u64, u64, u64)>) -> Seq<(u64, u64, u64, u64)>
    decreases secs.len(),
{
    if secs.len() == 0 {
        Seq::empty()
    } else {
        let rest = loads_spec(secs.drop_last());
        if is_loaded(secs.last()) {
            rest.push(load_of(secs.last()))
        } else {
            rest
        }
    }
}

/// Region `l` is planned for section `sec`: the section holds program data
/// and occupies memory, and the region has its address, size and file
/// offset, and is executable exactly when the section holds instructions.
pub open spec fn planned_from(l: (u64, u64, u64, u64), sec: (bool, u64, u64, u64, u64)) -> bool {
    &&& sec.0 && sec.1 & 2 == 2
    &&& l.0 == sec.2 && l.1 == sec.4 && l.2 == sec.3
    &&& (l.3 == 3 <==> sec.1 & 4 == 4)
}

/// Law: every planned region comes from a section that holds program data
/// and occupies memory, with that section's address, size and file offset;
/// its permission is user read-write (bits 1), or user read-write-execute
/// (bits 3) exactly when the section holds instructions, whatever its other
/// flags.
pub proof fn lemma_planned_regions(secs: Seq<(bool, u64, u64, u64, u64)>)
    ensures
        loads_spec(secs).len() <= secs.len(),
        forall|i: int| 0 <= i < loads_spec(secs).len() ==> {
            &&& (#[trigger] loads_spec(secs)[i]).3 == 1 || loads_spec(secs)[i].3 == 3
            &&& exists|j: int| 0 <= j < secs.len() && #[trigger] planned_from(loads_spec(secs)[i], secs[j])
        },
    decreases secs.len(),
{
    if secs.len() > 0 {
        let rest = secs.drop_last();
        lemma_planned_regions(rest);
        assert forall|i: int| 0 <= i < loads_spec(secs).len() implies {
            &&& (#[trigger] loads_spec(secs)[i]).3 == 1 || loads_spec(secs)[i].3 == 3
            &&& exists|j: int| 0 <= j < secs.len() && #[trigger] planned_from(loads_spec(secs)[i], secs[j])
        } by {
            if i < loads_spec(rest).len() {
                let l = loads_spec(rest)[i];
                assert(loads_spec(secs)[i] == l);
                assert(l.3 == 1 || l.3 == 3);
                let j = choose|j: int| 0 <= j < rest.len() && #[trigger] planned_from(l, rest[j]);
                assert(secs[j] == rest[j]);
                assert(planned_from(loads_spec(secs)[i], secs[j]));
            } else {
                let j = secs.len() - 1;
                assert(secs[j] == secs.last());
                assert(planned_from(loads_spec(secs)[i], secs[j]));
            }
        }
    }
}

/// A planned region as plain values: start, size, file offset, permission bits.
pub open spec fn section_load_view(l: SectionLoad) -> (u64, u64, u64, u64) {
    (l.start, l.size, l.file_offset, l.permission.bits())
}

/// Plans the regions of an image: one per loaded section, then the stack.
pub fn plan_process_load(img: &ElfImage) -> (r: LoadPlan)
    ensures
        r.entry == img.entry,
        r.sections@.map_values(|l: SectionLoad| section_load_view(l)) == loads_spec(img.view().1),
        r.stack_base == USER_STACK_BASE,
        r.stack_size == USER_STACK_SIZE,
{
    let mut loads: Vec<SectionLoad> = Vec::new();
    let mut i: usize = 0;
    while i < img.sections.len()
        invariant
            0 <= i <= img.sections.len(),
            loads@.map_values(|l: SectionLoad| section_load_view(l))
                == loads_spec(img.view().1.take(i as int)),
        decreases img.sections.len() - i,
    {
        let s = img.sections[i];
        let ghost secs = img.view().1;
        assert(secs.take(i as int + 1).drop_last() =~= secs.take(i as int));
        assert(secs.take(i as int + 1).last() == section_view(s));
        if s.progbits && (s.flags & SHF_ALLOC) == SHF_ALLOC {
            let permission = if (s.flags & SHF_EXECINSTR) == SHF_EXECINSTR {
                PagePermission::USER_RWX()
            } else {
                PagePermission::USER_READ_WRITE()
            };
            let ghost before = loads@;
            loads.push(SectionLoad { start: s.addr, size: s.size, file_offset: s.offset, permission });
            assert(loads@.map_values(|l: SectionLoad| section_load_view(l))
                =~= before.map_values(|l: SectionLoad| section_load_view(l)).push(load_of(section_view(s))));
        }
        i = i + 1;
    }
    assert(img.view().1.take(img.sections.len() as int) =~= img.view().1);
    LoadPlan { entry: img.entry, sections: loads, stack_base: USER_STACK_BASE, stack_size: USER_STACK_SIZE }
}

/// Plans loading the ELF file in `buf`; `None` where `elf_rs` does not read
/// it as a 64-bit image. The section header table must lie at a multiple
/// of 8 bytes: `elf_rs` reads it in place.
pub fn load_plan(buf: &[u8]) -> (r: Option<LoadPlan>)
    requires
        section_table_aligned(buf@),
    ensures
        r is Some <==> elf64_parse(buf@) is Some,
        r matches Some(p) ==> {
            &&& p.entry == elf64_parse(buf@)->Some_0.0
            &&& p.sections@.map_values(|l: SectionLoad| section_load_view(l)) == loads_spec(elf64_parse(buf@)->Some_0.1)
            &&& p.stack_base == USER_STACK_BASE
            &&& p.stack_size == USER_STACK_SIZE
        },
{
    let scratch = scratch_words(buf.len());
    match read_elf64(buf, scratch) {
        Some(img) => Some(plan_process_load(&img)),
        None => None,
    }
}

/// The MSR values that enable the `syscall` instruction.
pub struct SyscallMsrs {
    /// EFER with the system-call-extensions bit set.
    pub efer: u64,
    /// RFLAGS bits cleared on entry: the interrupt flag.
    pub fmask: u64,
    /// Kernel segments at selector 0x08, user segments at 0x18 with RPL 3.
    pub star: u64,
    /// The entry point of the system call handler.
    pub lstar: u64,
}

/// The MSR values for `syscall` entry at `handler`, given the current EFER.
pub fn syscall_msrs(efer: u64, handler: u64) -> (r: SyscallMsrs)
    ensures
        r.efer == efer | 1,
        r.fmask == 0x200,
        r.star == 0x001b_0008_0000_0000,
        r.lstar == handler,
{
    assert((1u64 << 0u64) == 1 && (1u64 << 9u64) == 0x200 && ((0x08u64 << 32u64) | ((0x18u64 | 3) << 48u64)) == 0x001b_0008_0000_0000) by (bit_vector);
    SyscallMsrs {
        efer: efer | (1 << 0),
        fmask: 1 << 9,
        star: 0x08 << 32 | (0x18 | 3) << 48,
        lstar: handler,
    }
}

/// The regions a plan asks for, as plain values and in order: one per loaded
/// section, then the stack, read-write for the user.
pub open spec fn plan_blocks(p: LoadPlan) -> Seq<(u64, u64, u64)> {
    p.sections@.map_values(|l: SectionLoad| (l.start, l.size, l.permission.bits()))
        .push((p.stack_base, p.stack_size, 1u64))
}

/// `e` is what `create_checked` answers for region `b` over `blocks`: the
/// check that refuses it, or a failed mapping where no check does.
pub open spec fn region_refused(blocks: Seq<(u64, u64, u64)>, b: (u64, u64, u64), e: RegionError) -> bool {
    ||| create_refusal(blocks, b.0, b.1) == Some(e)
    ||| (create_refusal(blocks, b.0, b.1) is None && e is Mapping)
}

/// Creates the regions of a plan in an address space, in order, each with
/// the kernel's checks (`create_checked`), and stops at the first refused:
/// on success no check refused any region, and an error is the answer for
/// the first region not created.
pub fn create_regions<T: PageTableSpecific, A: PhysAlloc>(
    aspace: &mut AddressSpace<T, A>, mem: &mut TableMemory, plan: &LoadPlan,
) -> (r: Result<(), RegionError>)
    ensures
        final(aspace).table_phys() == old(aspace).table_phys(),
        r is Ok ==> final(aspace).blocks() == old(aspace).blocks() + plan_blocks(*plan),
        r is Ok ==> forall|k: int| 0 <= k < plan_blocks(*plan).len() ==> #[trigger] create_refusal(
            old(aspace).blocks() + plan_blocks(*plan).take(k), plan_blocks(*plan)[k].0, plan_blocks(*plan)[k].1) is None,
        r matches Err(e) ==> exists|k: int| 0 <= k < plan_blocks(*plan).len()
            && final(aspace).blocks() == old(aspace).blocks() + #[trigger] plan_blocks(*plan).take(k)
            && region_refused(old(aspace).blocks() + plan_blocks(*plan).take(k), plan_blocks(*plan)[k], e),
{
    let ghost pb = plan_blocks(*plan);
    let ghost start = aspace.blocks();
    let n = plan.sections.len();
    let mut i: usize = 0;
    while i < n
        invariant
            n == plan.sections@.len(),
            pb == plan_blocks(*plan),
            pb.len() == n + 1,
            start == old(aspace).blocks(),
            i <= n,
            aspace.blocks() == start + pb.take(i as int),
            aspace.table_phys() == old(aspace).table_phys(),
            forall|k: int| 0 <= k < i ==> #[trigger] create_refusal(start + pb.take(k), pb[k].0, pb[k].1) is None,
        decreases n - i,
    {
        let l = plan.sections[i];
        assert(pb[i as int] == (l.start, l.size, l.permission.bits()));
        match aspace.create_checked(mem, l.start, l.size, l.permission) {
            Ok(()) => {},
            Err(e) => {
                assert(aspace.blocks() == start + pb.take(i as int));
                assert(region_refused(start + pb.take(i as int), pb[i as int], e));
                return Err(e);
            },
        }
        assert(create_refusal(start + pb.take(i as int), pb[i as int].0, pb[i as int].1) is None);
        assert(pb.take(i as int + 1) =~= pb.take(i as int).push((l.start, l.size, l.permission.bits())));
        assert(aspace.blocks() =~= start + pb.take(i as int + 1));
        i = i + 1;
    }
    let stack_perm = PagePermission::USER_READ_WRITE();
    assert(pb[n as int] == (plan.stack_base, plan.stack_size, 1u64));
    match aspace.create_checked(mem, plan.stack_base, plan.stack_size, stack_perm) {
        Ok(()) => {},
        Err(e) => {
            assert(aspace.blocks() == start + pb.take(n as int));
            assert(region_refused(start + pb.take(n as int), pb[n as int], e));
            return Err(e);
        },
    }
    assert(create_refusal(start + pb.take(n as int), pb[n as int].0, pb[n as int].1) is None);
    assert(pb =~= pb.take(n as int).push((plan.stack_base, plan.stack_size, 1u64)));
    assert(aspace.blocks() =~= start + pb);
    Ok(())
}

} // verus!
