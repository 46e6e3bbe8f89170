//! Names for AArch64 exception syndromes, and the decisions the exception
//! vectors take on a syndrome.
use vstd::prelude::*;

verus! {

/// The text for an exception class.
pub open spec fn ec_text(ec: u64) -> &'static str {
    if ec == 0b000000 {
        "unknown"
    } else if ec == 0b000001 {
        "trapped wfi/wfe"
    } else if ec == 0b000011 {
        "trapped mcr/mrc"
    } else if ec == 0b000100 {
        "trapped mcrr/mrrc"
    } else if ec == 0b000101 {
        "trapped mcr/mrc"
    } else if ec == 0b000110 {
        "trapped ldc/stc"
    } else if ec == 0b000111 {
        "floating point trap"
    } else if ec == 0b001010 {
        "trapped 64 byte load"
    } else if ec == 0b001100 {
        "trapped mrrc"
    } else if ec == 0b001101 {
        "branch target exception"
    } else if ec == 0b001110 {
        "illegal execution state"
    } else if ec == 0b010001 {
        "aarch32 svc"
    } else if ec == 0b010101 {
        "aarch64 svc"
    } else if ec == 0b011000 {
        "trapped msr/mrs"
    } else if ec == 0b011001 {
        "trapped sve instruction"
    } else if ec == 0b011100 {
        "pac failure"
    } else if ec == 0b100000 {
        "instruction abort from lower level"
    } else if ec == 0b100001 {
        "instruction abort from same level"
    } else if ec == 0b100010 {
        "pc alignment"
    } else if ec == 0b100100 {
        "data abort from lower level"
    } else if ec == 0b100101 {
        "data abort from same level"
    } else if ec == 0b100110 {
        "sp alignment"
    } else if ec == 0b101000 {
        "floating point exception (aarch32)"
    } else if ec == 0b101100 {
        "floating point exception (aarch64)"
    } else if ec == 0b101111 {
        "serror"
    } else if ec == 0b110000 {
        "breakpoint from lower level"
    } else if ec == 0b110001 {
        "breakpoint from same level"
    } else if ec == 0b110010 {
        "software step from lower level"
    } else if ec == 0b110011 {
        "software step from same level"
    } else if ec == 0b110100 {
        "watchpoint from lower level"
    } else if ec == 0b110101 {
        "watchpoint from same level"
    } else if ec == 0b111000 {
        "aarch32 bkpt"
    } else if ec == 0b111100 {
        "aarch64 brk"
    } else {
        "unknown ?"
    }
}

/// Describes an exception class.
pub fn stringify_ec(ec: u64) -> (r: &'static str)
    ensures
        r@ == ec_text(ec)@,
{
    match ec {
        0b000000 => "unknown",
        0b000001 => "trapped wfi/wfe",
        0b000011 => "trapped mcr/mrc",
        0b000100 => "trapped mcrr/mrrc",
        0b000101 => "trapped mcr/mrc",
        0b000110 => "trapped ldc/stc",
        0b000111 => "floating point trap",
        0b001010 => "trapped 64 byte load",
        0b001100 => "trapped mrrc",
        0b001101 => "branch target exception",
        0b001110 => "illegal execution state",
        0b010001 => "aarch32 svc",
        0b010101 => "aarch64 svc",
        0b011000 => "trapped msr/mrs",
        0b011001 => "trapped sve instruction",
        0b011100 => "pac failure",
        0b100000 => "instruction abort from lower level",
        0b100001 => "instruction abort from same level",
        0b100010 => "pc alignment",
        0b100100 => "data abort from lower level",
        0b100101 => "data abort from same level",
        0b100110 => "sp alignment",
        0b101000 => "floating point exception (aarch32)",
        0b101100 => "floating point exception (aarch64)",
        0b101111 => "serror",
        0b110000 => "breakpoint from lower level",
        0b110001 => "breakpoint from same level",
        0b110010 => "software step from lower level",
        0b110011 => "software step from same level",
        0b110100 => "watchpoint from lower level",
        0b110101 => "watchpoint from same level",
        0b111000 => "aarch32 bkpt",
        0b111100 => "aarch64 brk",
        _ => "unknown ?",
    }
}

/// The text for an data fault status code.
pub open spec fn dfsc_text(dfsc: u64) -> &'static str {
    if dfsc == 0b000000 {
        "Address size fault, level 0 of translation or translation table base register."
    } else if dfsc == 0b000001 {
        "Address size fault, level 1."
    } else if dfsc == 0b000010 {
        "Address size fault, level 2."
    } else if dfsc == 0b000011 {
        "Address size fault, level 3."
    } else if dfsc == 0b000100 {
        "Translation fault, level 0."
    } else if dfsc == 0b000101 {
        "Translation fault, level 1."
    } else if dfsc == 0b000110 {
        "Translation fault, level 2."
    } else if dfsc == 0b000111 {
        "Translation fault, level 3."
    } else if dfsc == 0b001001 {
        "Access flag fault, level 1."
    } else if dfsc == 0b001010 {
        "Access flag fault, level 2."
    } else if dfsc == 0b001011 {
        "Access flag fault, level 3."
    } else if dfsc == 0b001000 {
        "When FEAT_LPA2 is implemented Access flag fault, level 0."
    } else if dfsc == 0b001100 {
        "When FEAT_LPA2 is implemented Permission fault, level 0."
    } else if dfsc == 0b001101 {
        "Permission fault, level 1."
    } else if dfsc == 0b001110 {
        "Permission fault, level 2."
    } else if dfsc == 0b001111 {
        "Permission fault, level 3."
    } else if dfsc == 0b010000 {
        "Synchronous External abort, not on translation table walk or hardware update of translation table."
    } else if dfsc == 0b010001 {
        "When FEAT_MTE2 is implemented Synchronous Tag Check Fault."
    } else if dfsc == 0b010011 {
        "When FEAT_LPA2 is implemented Synchronous External abort on translation table walk or hardware update of translation table, level -1."
    } else if dfsc == 0b010100 {
        "Synchronous External abort on translation table walk or hardware update of translation table, level 0."
    } else if dfsc == 0b010101 {
        "Synchronous External abort on translation table walk or hardware update of translation table, level 1."
    } else if dfsc == 0b010110 {
        "Synchronous External abort on translation table walk or hardware update of translation table, level 2."
    } else if dfsc == 0b010111 {
        "Synchronous External abort on translation table walk or hardware update of translation table, level 3."
    } else if dfsc == 0b011000 {
        "When FEAT_RAS is not implemented Synchronous parity or ECC error on memory access, not on translation table walk."
    } else if dfsc == 0b011011 {
        "When FEAT_LPA2 is implemented and FEAT_RAS is not implemented Synchronous parity or ECC error on memory access on translation table walk or hardware update of translation table, level -1."
    } else if dfsc == 0b011100 {
        "When FEAT_RAS is not implemented Synchronous parity or ECC error on memory access on translation table walk or hardware update of translation table, level 0."
    } else if dfsc == 0b011101 {
        "When FEAT_RAS is not implemented Synchronous parity or ECC error on memory access on translation table walk or hardware update of translation table, level 1."
    } else if dfsc == 0b011110 {
        "When FEAT_RAS is not implemented Synchronous parity or ECC error on memory access on translation table walk or hardware update of translation table, level 2."
    } else if dfsc == 0b011111 {
        "When FEAT_RAS is not implemented Synchronous parity or ECC error on memory access on translation table walk or hardware update of translation table, level 3."
    } else if dfsc == 0b100001 {
        "Alignment fault."
    } else if dfsc == 0b101001 {
        "When FEAT_LPA2 is implemented Address size fault, level -1."
    } else if dfsc == 0b101011 {
        "When FEAT_LPA2 is implemented Translation fault, level -1."
    } else if dfsc == 0b110000 {
        "TLB conflict abort."
    } else if dfsc == 0b110001 {
        "When FEAT_HAFDBS is implemented Unsupported atomic hardware update fault."
    } else if dfsc == 0b110100 {
        "IMPLEMENTATION DEFINED fault (Lockdown)."
    } else if dfsc == 0b110101 {
        "IMPLEMENTATION DEFINED fault (Unsupported Exclusive or Atomic access)."
    } else {
        "unknown ?"
    }
}

/// Describes an data fault status code.
pub fn stringify_dfsc(dfsc: u64) -> (r: &'static str)
    ensures
        r@ == dfsc_text(dfsc)@,
{
    match dfsc {
        0b000000 => "Address size fault, level 0 of translation or translation table base register.",
        0b000001 => "Address size fault, level 1.",
        0b000010 => "Address size fault, level 2.",
        0b000011 => "Address size fault, level 3.",
        0b000100 => "Translation fault, level 0.",
        0b000101 => "Translation fault, level 1.",
        0b000110 => "Translation fault, level 2.",
        0b000111 => "Translation fault, level 3.",
        0b001001 => "Access flag fault, level 1.",
        0b001010 => "Access flag fault, level 2.",
        0b001011 => "Access flag fault, level 3.",
        0b001000 => "When FEAT_LPA2 is implemented Access flag fault, level 0.",
        0b001100 => "When FEAT_LPA2 is implemented Permission fault, level 0.",
        0b001101 => "Permission fault, level 1.",
        0b001110 => "Permission fault, level 2.",
        0b001111 => "Permission fault, level 3.",
        0b010000 => "Synchronous External abort, not on translation table walk or hardware update of translation table.",
        0b010001 => "When FEAT_MTE2 is implemented Synchronous Tag Check Fault.",
        0b010011 => "When FEAT_LPA2 is implemented Synchronous External abort on translation table walk or hardware update of translation table, level -1.",
        0b010100 => "Synchronous External abort on translation table walk or hardware update of translation table, level 0.",
        0b010101 => "Synchronous External abort on translation table walk or hardware update of translation table, level 1.",
        0b010110 => "Synchronous External abort on translation table walk or hardware update of translation table, level 2.",
        0b010111 => "Synchronous External abort on translation table walk or hardware update of translation table, level 3.",
        0b011000 => "When FEAT_RAS is not implemented Synchronous parity or ECC error on memory access, not on translation table walk.",
        0b011011 => "When FEAT_LPA2 is implemented and FEAT_RAS is not implemented Synchronous parity or ECC error on memory access on translation table walk or hardware update of translation table, level -1.",
        0b011100 => "When FEAT_RAS is not implemented Synchronous parity or ECC error on memory access on translation table walk or hardware update of translation table, level 0.",
        0b011101 => "When FEAT_RAS is not implemented Synchronous parity or ECC error on memory access on translation table walk or hardware update of translation table, level 1.",
        0b011110 => "When FEAT_RAS is not implemented Synchronous parity or ECC error on memory access on translation table walk or hardware update of translation table, level 2.",
        0b011111 => "When FEAT_RAS is not implemented Synchronous parity or ECC error on memory access on translation table walk or hardware update of translation table, level 3.",
        0b100001 => "Alignment fault.",
        0b101001 => "When FEAT_LPA2 is implemented Address size fault, level -1.",
        0b101011 => "When FEAT_LPA2 is implemented Translation fault, level -1.",
        0b110000 => "TLB conflict abort.",
        0b110001 => "When FEAT_HAFDBS is implemented Unsupported atomic hardware update fault.",
        0b110100 => "IMPLEMENTATION DEFINED fault (Lockdown).",
        0b110101 => "IMPLEMENTATION DEFINED fault (Unsupported Exclusive or Atomic access).",
        _ => "unknown ?",
    }
}

/// The text for an instruction fault status code.
pub open spec fn ifsc_text(ifsc: u64) -> &'static str {
    if ifsc == 0b000000 {
        "Address size fault, level 0 of translation or translation table base register."
    } else if ifsc == 0b000001 {
        "Address size fault, level 1."
    } else if ifsc == 0b000010 {
        "Address size fault, level 2."
    } else if ifsc == 0b000011 {
        "Address size fault, level 3."
    } else if ifsc == 0b000100 {
        "Translation fault, level 0."
    } else if ifsc == 0b000101 {
        "Translation fault, level 1."
    } else if ifsc == 0b000110 {
        "Translation fault, level 2."
    } else if ifsc == 0b000111 {
        "Translation fault, level 3."
    } else if ifsc == 0b001001 {
        "Access flag fault, level 1."
    } else if ifsc == 0b001010 {
        "Access flag fault, level 2."
    } else if ifsc == 0b001011 {
        "Access flag fault, level 3."
    } else if ifsc == 0b001000 {
        "When FEAT_LPA2 is implemented Access flag fault, level 0."
    } else if ifsc == 0b001100 {
        "When FEAT_LPA2 is implemented Permission fault, level 0."
    } else if ifsc == 0b001101 {
        "Permission fault, level 1."
    } else if ifsc == 0b001110 {
        "Permission fault, level 2."
    } else if ifsc == 0b001111 {
        "Permission fault, level 3."
    } else if ifsc == 0b010000 {
        "Synchronous External abort, not on translation table walk or hardware update of translation table."
    } else if ifsc == 0b010011 {
        "When FEAT_LPA2 is implemented Synchronous External abort on translation table walk or hardware update of translation table, level -1."
    } else if ifsc == 0b010100 {
        "Synchronous External abort on translation table walk or hardware update of translation table, level 0."
    } else if ifsc == 0b010101 {
        "Synchronous External abort on translation table walk or hardware update of translation table, level 1."
    } else if ifsc == 0b010110 {
        "Synchronous External abort on translation table walk or hardware update of translation table, level 2."
    } else if ifsc == 0b010111 {
        "Synchronous External abort on translation table walk or hardware update of translation table, level 3."
    } else if ifsc == 0b011000 {
        "When FEAT_RAS is not implemented Synchronous parity or ECC error on memory access, not on translation table walk."
    } else if ifsc == 0b011011 {
        "When FEAT_LPA2 is implemented and FEAT_RAS is not implemented Synchronous parity or ECC error on memory access on translation table walk or hardware update of translation table, level -1."
    } else if ifsc == 0b011100 {
        "When FEAT_RAS is not implemented Synchronous parity or ECC error on memory access on translation table walk or hardware update of translation table, level 0."
    } else if ifsc == 0b011101 {
        "When FEAT_RAS is not implemented Synchronous parity or ECC error on memory access on translation table walk or hardware update of translation table, level 1."
    } else if ifsc == 0b011110 {
        "When FEAT_RAS is not implemented Synchronous parity or ECC error on memory access on translation table walk or hardware update of translation table, level 2."
    } else if ifsc == 0b011111 {
        "When FEAT_RAS is not implemented Synchronous parity or ECC error on memory access on translation table walk or hardware update of translation table, level 3."
    } else if ifsc == 0b101001 {
        "When FEAT_LPA2 is implemented Address size fault, level -1."
    } else if ifsc == 0b101011 {
        "When FEAT_LPA2 is implemented Translation fault, level -1."
    } else if ifsc == 0b110000 {
        "TLB conflict abort."
    } else if ifsc == 0b110001 {
        "When FEAT_HAFDBS is implemented Unsupported atomic hardware update fault"
    } else {
        "unknown ?"
    }
}

/// Describes an instruction fault status code.
pub fn stringify_ifsc(ifsc: u64) -> (r: &'static str)
    ensures
        r@ == ifsc_text(ifsc)@,
{
    match ifsc {
        0b000000 => "Address size fault, level 0 of translation or translation table base register.",
        0b000001 => "Address size fault, level 1.",
        0b000010 => "Address size fault, level 2.",
        0b000011 => "Address size fault, level 3.",
        0b000100 => "Translation fault, level 0.",
        0b000101 => "Translation fault, level 1.",
        0b000110 => "Translation fault, level 2.",
        0b000111 => "Translation fault, level 3.",
        0b001001 => "Access flag fault, level 1.",
        0b001010 => "Access flag fault, level 2.",
        0b001011 => "Access flag fault, level 3.",
        0b001000 => "When FEAT_LPA2 is implemented Access flag fault, level 0.",
        0b001100 => "When FEAT_LPA2 is implemented Permission fault, level 0.",
        0b001101 => "Permission fault, level 1.",
        0b001110 => "Permission fault, level 2.",
        0b001111 => "Permission fault, level 3.",
        0b010000 => "Synchronous External abort, not on translation table walk or hardware update of translation table.",
        0b010011 => "When FEAT_LPA2 is implemented Synchronous External abort on translation table walk or hardware update of translation table, level -1.",
        0b010100 => "Synchronous External abort on translation table walk or hardware update of translation table, level 0.",
        0b010101 => "Synchronous External abort on translation table walk or hardware update of translation table, level 1.",
        0b010110 => "Synchronous External abort on translation table walk or hardware update of translation table, level 2.",
        0b010111 => "Synchronous External abort on translation table walk or hardware update of translation table, level 3.",
        0b011000 => "When FEAT_RAS is not implemented Synchronous parity or ECC error on memory access, not on translation table walk.",
        0b011011 => "When FEAT_LPA2 is implemented and FEAT_RAS is not implemented Synchronous parity or ECC error on memory access on translation table walk or hardware update of translation table, level -1.",
        0b011100 => "When FEAT_RAS is not implemented Synchronous parity or ECC error on memory access on translation table walk or hardware update of translation table, level 0.",
        0b011101 => "When FEAT_RAS is not implemented Synchronous parity or ECC error on memory access on translation table walk or hardware update of translation table, level 1.",
        0b011110 => "When FEAT_RAS is not implemented Synchronous parity or ECC error on memory access on translation table walk or hardware update of translation table, level 2.",
        0b011111 => "When FEAT_RAS is not implemented Synchronous parity or ECC error on memory access on translation table walk or hardware update of translation table, level 3.",
        0b101001 => "When FEAT_LPA2 is implemented Address size fault, level -1.",
        0b101011 => "When FEAT_LPA2 is implemented Translation fault, level -1.",
        0b110000 => "TLB conflict abort.",
        0b110001 => "When FEAT_HAFDBS is implemented Unsupported atomic hardware update fault",
        _ => "unknown ?",
    }
}

/// The exception class field of a syndrome register value.
pub open spec fn esr_ec(esr: u64) -> u64 {
    (esr & (0x3fu64 << 26u64)) >> 26u64
}

/// The instruction-specific syndrome bits the kernel looks at.
pub open spec fn esr_iss(esr: u64) -> u64 {
    esr & 0xffffff
}

/// Exception class of an SVC instruction executed in AArch64 state.
pub const EC_SVC_AARCH64: u64 = 0b010101;
/// Exception class of a data abort taken from a lower exception level.
pub const EC_DATA_ABORT_LOWER: u64 = 0b100100;
/// Exception class of a data abort taken without a change of level.
pub const EC_DATA_ABORT_SAME: u64 = 0b100101;
/// Exception class of an instruction abort taken from a lower exception level.
pub const EC_INSTRUCTION_ABORT_LOWER: u64 = 0b100000;
/// Number of entries of the system call table.
pub const NUM_SVC_HANDLERS: u64 = 31;

/// What the handler for a synchronous exception from user mode does.
#[derive(Debug, Copy, Clone, PartialEq, Eq, Structural)]
pub enum LowerElSync {
    /// Run the system call table entry the syndrome names.
    Svc(u64),
    /// An SVC whose number has no table entry: the kernel panics.
    InvalidSvc(u64),
    /// Report a data abort with its fault status code, then halt.
    DataAbort { ec: u64, iss: u64, dfsc: u64 },
    /// Report an instruction abort with its fault status code, then halt.
    InstructionAbort { ec: u64, iss: u64, ifsc: u64 },
    /// Report any other exception class, then halt.
    Other { ec: u64, iss: u64 },
}

/// The decision for a synchronous exception from user mode with syndrome `esr`.
pub open spec fn lower_el_sync_spec(esr: u64) -> LowerElSync {
    let ec = esr_ec(esr);
    let iss = esr_iss(esr);
    if ec == EC_SVC_AARCH64 {
        if iss < NUM_SVC_HANDLERS {
            LowerElSync::Svc(iss)
        } else {
            LowerElSync::InvalidSvc(iss)
        }
    } else if ec == EC_DATA_ABORT_LOWER {
        LowerElSync::DataAbort { ec, iss, dfsc: iss & 0x3f }
    } else if ec == EC_INSTRUCTION_ABORT_LOWER {
        LowerElSync::InstructionAbort { ec, iss, ifsc: iss & 0x3f }
    } else {
        LowerElSync::Other { ec, iss }
    }
}

/// Decides how to handle a synchronous exception from user mode.
pub fn classify_lower_el_sync(esr: u64) -> (r: LowerElSync)
    ensures
        r == lower_el_sync_spec(esr),
{
    let ec = (esr & (0x3f << 26)) >> 26;
    let iss = esr & 0xffffff;
    if ec == EC_SVC_AARCH64 {
        if iss < NUM_SVC_HANDLERS {
            LowerElSync::Svc(iss)
        } else {
            LowerElSync::InvalidSvc(iss)
        }
    } else if ec == EC_DATA_ABORT_LOWER {
        LowerElSync::DataAbort { ec, iss, dfsc: iss & 0x3f }
    } else if ec == EC_INSTRUCTION_ABORT_LOWER {
        LowerElSync::InstructionAbort { ec, iss, ifsc: iss & 0x3f }
    } else {
        LowerElSync::Other { ec, iss }
    }
}

/// What the handler for a synchronous exception in the kernel reports before halting.
#[derive(Debug, Copy, Clone, PartialEq, Eq, Structural)]
pub struct CurrElSync {
    pub ec: u64,
    pub iss: u64,
    /// The data fault status code, for a data abort in the kernel.
    pub dfsc: Option<u64>,
}

/// Decodes a synchronous exception taken in the kernel.
pub fn classify_curr_el_sync(esr: u64) -> (r: CurrElSync)
    ensures
        r.ec == esr_ec(esr),
        r.iss == esr_iss(esr),
        r.dfsc == (if esr_ec(esr) == EC_DATA_ABORT_SAME { Some(esr_iss(esr) & 0x3f) } else { None::<u64> }),
{
    let ec = (esr & (0x3f << 26)) >> 26;
    let iss = esr & 0xffffff;
    let dfsc = if ec == EC_DATA_ABORT_SAME { Some(iss & 0x3f) } else { None };
    CurrElSync { ec, iss, dfsc }
}

/// What the IRQ handler does with an interrupt from the controller.
#[derive(Debug, Copy, Clone, PartialEq, Eq, Structural)]
pub enum IrqAction {
    /// A timer interrupt: tick and re-arm the timer, then acknowledge it.
    TimerTick,
    /// Any other interrupt: mask it at the distributor and hand it to its
    /// event; acknowledge it only if no event took it.
    Device,
}

/// Interrupt 1 (the Raspberry Pi 3 timer) and interrupt 30 (the generic
/// timer) drive the system tick.
pub fn irq_action(interrupt: u32) -> (r: IrqAction)
    ensures
        r == (if interrupt == 1 || interrupt == 30 { IrqAction::TimerTick } else { IrqAction::Device }),
{
    match interrupt {
        1 => IrqAction::TimerTick,
        30 => IrqAction::TimerTick,
        _ => IrqAction::Device,
    }
}

} // verus!
