//! The decisions the x86-64 exception handler takes on an interrupt number.
use vstd::prelude::*;

verus! {

/// The cause of a page fault, from the error code the processor pushes.
#[derive(Debug, Copy, Clone, PartialEq, Eq, Structural)]
pub struct PageFaultCause {
    /// Bit 0: a protection violation (otherwise the page was not present).
    pub protection_violation: bool,
    /// Bit 1: the access was a write (otherwise a read).
    pub write: bool,
    /// Bit 2: the access came from user mode (otherwise the supervisor).
    pub user: bool,
    /// Bit 3: a reserved bit was set in a paging entry.
    pub reserved_bit: bool,
    /// Bit 4: the access was an instruction fetch (otherwise a data access).
    pub instruction_fetch: bool,
}

/// Decodes a page-fault error code.
pub fn decode_page_fault(error_code: u64) -> (r: PageFaultCause)
    ensures
        r.protection_violation == (error_code & 1 == 1),
        r.write == (error_code & 2 == 2),
        r.user == (error_code & 4 == 4),
        r.reserved_bit == (error_code & 8 == 8),
        r.instruction_fetch == (error_code & 0x10 == 0x10),
{
    assert((1u64 << 0u64) == 1 && (1u64 << 1u64) == 2 && (1u64 << 2u64) == 4 && (1u64 << 3u64) == 8
        && (1u64 << 4u64) == 0x10) by (bit_vector);
    PageFaultCause {
        protection_violation: (error_code & (1 << 0)) == (1 << 0),
        write: (error_code & (1 << 1)) == (1 << 1),
        user: (error_code & (1 << 2)) == (1 << 2),
        reserved_bit: (error_code & (1 << 3)) == (1 << 3),
        instruction_fetch: (error_code & (1 << 4)) == (1 << 4),
    }
}

/// What the exception handler does for an interrupt number.
#[derive(Debug, Copy, Clone, PartialEq, Eq, Structural)]
pub enum ExceptionAction {
    /// Vector 6: report an invalid instruction and panic.
    InvalidInstruction,
    /// Vector 14: report the page fault and panic.
    PageFault(PageFaultCause),
    /// IRQ 0: acknowledge it, tick the timer and the scheduler clock.
    TimerIrq,
    /// IRQ 7 or 15: a possibly spurious interrupt; nothing is acknowledged.
    SpuriousIrq(u64),
    /// Another IRQ: hand it to its event, then acknowledge it.
    DeviceIrq(u64),
    /// Any other vector: report it and panic.
    Unhandled,
}

/// The decision for vector `interrupt_number` with `error_code`.
pub open spec fn exception_action_spec(interrupt_number: u64, error_code: u64) -> ExceptionAction {
    if interrupt_number == 6 {
        ExceptionAction::InvalidInstruction
    } else if interrupt_number == 14 {
        ExceptionAction::PageFault(PageFaultCause {
            protection_violation: error_code & 1 == 1,
            write: error_code & 2 == 2,
            user: error_code & 4 == 4,
            reserved_bit: error_code & 8 == 8,
            instruction_fetch: error_code & 0x10 == 0x10,
        })
    } else if 32 <= interrupt_number <= 47 {
        let irq = (interrupt_number - 32) as u64;
        if irq == 7 || irq == 15 {
            ExceptionAction::SpuriousIrq(irq)
        } else if irq == 0 {
            ExceptionAction::TimerIrq
        } else {
            ExceptionAction::DeviceIrq(irq)
        }
    } else {
        ExceptionAction::Unhandled
    }
}

/// Decides how to handle an exception or interrupt.
pub fn classify_exception(interrupt_number: u64, error_code: u64) -> (r: ExceptionAction)
    ensures
        r == exception_action_spec(interrupt_number, error_code),
{
    match interrupt_number {
        0x6 => ExceptionAction::InvalidInstruction,
        0xe => ExceptionAction::PageFault(decode_page_fault(error_code)),
        32..=39 => {
            let irq_number = interrupt_number - 32;
            if irq_number == 7 {
                ExceptionAction::SpuriousIrq(irq_number)
            } else if irq_number == 0 {
                ExceptionAction::TimerIrq
            } else {
                ExceptionAction::DeviceIrq(irq_number)
            }
        },
        40..=47 => {
            let irq_number = interrupt_number - 32;
            if irq_number == 15 {
                ExceptionAction::SpuriousIrq(irq_number)
            } else {
                ExceptionAction::DeviceIrq(irq_number)
            }
        },
        _ => ExceptionAction::Unhandled,
    }
}

} // verus!
