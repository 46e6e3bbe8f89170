use francium::aarch64_context::ExceptionContext as ArmContext;
use francium::aarch64_exceptions::{
    classify_curr_el_sync, classify_lower_el_sync, irq_action, stringify_dfsc, stringify_ec, stringify_ifsc, IrqAction,
    LowerElSync,
};
use francium::aarch64_syscalls::{complete_syscall, decode_syscall, SyscallOutcome, SyscallRequest};
use francium::gdt::{kernel_gdt, kernel_tss, table_limit, GDTEntry, TSS};
use francium::idt::{interrupt_descriptors, IDTEntry};
use francium::process_load::syscall_msrs;
use francium::x86_exceptions::{classify_exception, decode_page_fault, ExceptionAction, PageFaultCause};

#[test]
fn code_and_data_descriptors() {
    assert_eq!(GDTEntry::new(0, 0xfffff, 0x9a, true).raw(), 0x00af_9a00_0000_ffff);
    assert_eq!(GDTEntry::new(0, 0xfffff, 0x92, false).raw(), 0x00cf_9200_0000_ffff);
    assert_eq!(GDTEntry::new(0x1234_5678, 0xabcde, 0xfa, true).raw(), 0x12aa_fa34_5678_bcde);
    assert_eq!(GDTEntry::null().raw(), 0);
    assert_eq!(GDTEntry::DEFAULT().raw(), 0);
}

#[test]
fn tss_descriptor_halves() {
    let loc = 0x1234_5678_9abc_def0u64;
    assert_eq!(GDTEntry::new_tss_low(loc, 0x67).raw(), 0x9a00_e9bc_def0_0067);
    assert_eq!(GDTEntry::new_tss_high(loc, 0x67).raw(), 0x0000_0000_1234_5678);
}

#[test]
fn descriptor_table_limits() {
    assert_eq!(table_limit(8, 8), 63);
    assert_eq!(table_limit(256, 16), 4095);
    assert_eq!(table_limit(8192, 8), 0xffff);
}

#[test]
fn default_tss_has_no_stacks_and_no_io_map() {
    let t = TSS::DEFAULT();
    assert_eq!((t.rsp0, t.rsp1, t.rsp2), (0, 0, 0));
    assert_eq!(t.ist, [0; 7]);
    // The I/O map starts at the end of the 104-byte segment: there is none.
    assert_eq!(t.iomap_base, 104);
}

#[test]
fn interrupt_gate_round_trips_its_offset() {
    let e = IDTEntry::new(0xffff_8000_1234_5678, 1, 0);
    assert_eq!(e.offset(), 0xffff_8000_1234_5678);
    assert_eq!(e.seg_selector(), 8);
    assert_eq!(e.ist(), 1);
    assert_eq!(e.type_flags(), 0x8e);
    let n = IDTEntry::null();
    assert_eq!((n.offset(), n.seg_selector(), n.ist(), n.type_flags()), (0, 0, 0, 0));
}

#[test]
fn exception_class_texts() {
    assert_eq!(stringify_ec(0b010101), "aarch64 svc");
    assert_eq!(stringify_ec(0b100100), "data abort from lower level");
    assert_eq!(stringify_ec(0b111100), "aarch64 brk");
    assert_eq!(stringify_ec(0b000010), "unknown ?");
    assert_eq!(stringify_dfsc(0b000111), "Translation fault, level 3.");
    assert_eq!(stringify_dfsc(0b100001), "Alignment fault.");
    assert_eq!(stringify_dfsc(0b111111), "unknown ?");
    assert_eq!(stringify_ifsc(0b001101), "Permission fault, level 1.");
    assert_eq!(stringify_ifsc(0b110001), "When FEAT_HAFDBS is implemented Unsupported atomic hardware update fault");
    // Alignment faults are data-side only.
    assert_eq!(stringify_ifsc(0b100001), "unknown ?");
}

#[test]
fn lower_el_dispatch() {
    let svc = (0b010101u64 << 26) | 5;
    assert_eq!(classify_lower_el_sync(svc), LowerElSync::Svc(5));
    assert_eq!(classify_lower_el_sync((0b010101u64 << 26) | 31), LowerElSync::InvalidSvc(31));
    let dabt = (0b100100u64 << 26) | 0x47;
    assert_eq!(classify_lower_el_sync(dabt), LowerElSync::DataAbort { ec: 0b100100, iss: 0x47, dfsc: 0x07 });
    let iabt = (0b100000u64 << 26) | 0x0d;
    assert_eq!(classify_lower_el_sync(iabt), LowerElSync::InstructionAbort { ec: 0b100000, iss: 0x0d, ifsc: 0x0d });
    assert_eq!(classify_lower_el_sync(0b111100u64 << 26), LowerElSync::Other { ec: 0b111100, iss: 0 });
}

#[test]
fn curr_el_decoding() {
    let r = classify_curr_el_sync((0b100101u64 << 26) | (1 << 25) | 0x45);
    assert_eq!((r.ec, r.iss, r.dfsc), (0b100101, 0x45, Some(0x05)));
    let r = classify_curr_el_sync(0b100010u64 << 26);
    assert_eq!((r.ec, r.iss, r.dfsc), (0b100010, 0, None));
}

#[test]
fn timer_interrupts() {
    assert_eq!(irq_action(1), IrqAction::TimerTick);
    assert_eq!(irq_action(30), IrqAction::TimerTick);
    assert_eq!(irq_action(33), IrqAction::Device);
}

#[test]
fn x86_vectors() {
    assert_eq!(classify_exception(6, 0), ExceptionAction::InvalidInstruction);
    assert_eq!(classify_exception(32, 0), ExceptionAction::TimerIrq);
    assert_eq!(classify_exception(39, 0), ExceptionAction::SpuriousIrq(7));
    assert_eq!(classify_exception(47, 0), ExceptionAction::SpuriousIrq(15));
    assert_eq!(classify_exception(33, 0), ExceptionAction::DeviceIrq(1));
    assert_eq!(classify_exception(44, 0), ExceptionAction::DeviceIrq(12));
    assert_eq!(classify_exception(13, 0), ExceptionAction::Unhandled);
    assert_eq!(classify_exception(48, 0), ExceptionAction::Unhandled);
    let cause = PageFaultCause { protection_violation: true, write: true, user: true, reserved_bit: false, instruction_fetch: false };
    assert_eq!(classify_exception(14, 0b0111), ExceptionAction::PageFault(cause));
}

#[test]
fn page_fault_error_codes() {
    let c = decode_page_fault(0b11000);
    assert_eq!(c, PageFaultCause { protection_violation: false, write: false, user: false, reserved_bit: true, instruction_fetch: true });
    let c = decode_page_fault(0b00010);
    assert!(c.write && !c.protection_violation && !c.user);
}

fn context(args: [usize; 5]) -> ArmContext {
    let mut ctx = ArmContext::new();
    ctx.regs[..5].copy_from_slice(&args);
    ctx
}

#[test]
fn syscall_arguments_come_from_x0_up() {
    let ctx = context([0x1000, 0x20, 3, 0, 0]);
    assert_eq!(decode_syscall(1, &ctx), Some(SyscallRequest::DebugOutput { ptr: 0x1000, len: 0x20 }));
    assert_eq!(decode_syscall(12, &ctx), Some(SyscallRequest::MapMemory { address: 0x1000, length: 0x20, permission: 3 }));
    assert_eq!(decode_syscall(0, &ctx), Some(SyscallRequest::Break));
    assert_eq!(decode_syscall(14, &ctx), Some(SyscallRequest::Break));
    assert_eq!(decode_syscall(31, &ctx), None);
    let ctx = context([0x1_0000_0005, 0x4000, 0x8000, 1, 7]);
    assert_eq!(decode_syscall(5, &ctx), Some(SyscallRequest::CloseHandle { handle: 5 }));
    assert_eq!(
        decode_syscall(19, &ctx),
        Some(SyscallRequest::MapDeviceMemory { phys: 0x1_0000_0005, virt: 0x4000, length: 0x8000, map_type: 1, permission: 7 })
    );
}

#[test]
fn syscall_results_go_to_x0_and_x1() {
    let mut ctx = context([9, 9, 9, 9, 9]);
    complete_syscall(&mut ctx, SyscallOutcome::CodeAndValue(0, 0x55));
    assert_eq!((ctx.regs[0], ctx.regs[1], ctx.regs[2]), (0, 0x55, 9));
    complete_syscall(&mut ctx, SyscallOutcome::Code(4));
    assert_eq!((ctx.regs[0], ctx.regs[1]), (4, 0x55));
    complete_syscall(&mut ctx, SyscallOutcome::Unit);
    assert_eq!(ctx.regs[0], 4);
    complete_syscall(&mut ctx, SyscallOutcome::Value(77));
    assert_eq!(ctx.regs[0], 77);
}

#[test]
fn syscall_msr_values() {
    let m = syscall_msrs(0xd00, 0xffff_8000_0000_1234);
    assert_eq!(m.efer, 0xd01);
    assert_eq!(m.fmask, 0x200);
    assert_eq!(m.star, 0x001b_0008_0000_0000);
    assert_eq!(m.lstar, 0xffff_8000_0000_1234);
}

#[test]
fn kernel_descriptor_table() {
    let gdt = kernel_gdt(0xffff_8000_0012_3400);
    let raw: Vec<u64> = gdt.iter().map(|e| e.raw()).collect();
    assert_eq!(
        raw,
        vec![
            0,
            0x00af_9a00_0000_ffff,
            0x00cf_9200_0000_ffff,
            0,
            0x00cf_f200_0000_ffff,
            0x00af_fa00_0000_ffff,
            0x0000_e912_3400_0067,
            0x0000_0000_ffff_8000,
        ]
    );
}

#[test]
fn kernel_task_state_segment() {
    let t = kernel_tss(0xffff_8000_0020_0000);
    assert_eq!(t.rsp0, 0xffff_8000_0020_0000);
    assert_eq!((t.rsp1, t.rsp2), (0xaaaa_aaaa_aaaa_aaaa, 0xaaaa_aaaa_aaaa_aaaa));
    assert_eq!(t.ist, [0xaaaa_aaaa_aaaa_aaaa; 7]);
    assert_eq!(t.iomap_base, 104);
}

#[test]
fn interrupt_table_has_one_gate_per_handler() {
    let idt = interrupt_descriptors(&[0xffff_8000_0000_1000, 0xffff_8000_0000_1010, 0x1234]);
    assert_eq!(idt.len(), 3);
    assert_eq!(idt[1].offset(), 0xffff_8000_0000_1010);
    assert_eq!(idt[2].offset(), 0x1234);
    assert!(idt.iter().all(|e| e.seg_selector() == 8 && e.type_flags() == 0x8e && e.ist() == 0));
    assert!(interrupt_descriptors(&[]).is_empty());
}
