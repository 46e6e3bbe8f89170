//! Saved register state of x86-64 threads and exceptions.
use vstd::prelude::*;

verus! {

/// The general registers and the interrupt frame, in the order the
/// exception entry code pushes them.
#[derive(Copy, Clone, Debug)]
pub struct X86Regs {
    pub rax: usize,
    pub rbx: usize,
    pub rcx: usize,
    pub rdx: usize,
    pub rbp: usize,
    pub rsi: usize,
    pub rdi: usize,
    pub r8: usize,
    pub r9: usize,
    pub r10: usize,
    pub r11: usize,
    pub r12: usize,
    pub r13: usize,
    pub r14: usize,
    pub r15: usize,
    pub interrupt_number: usize,
    pub error_code: usize,
    pub rip: usize,
    pub cs: usize,
    pub eflags: usize,
    pub rsp: usize,
    pub ss: usize,
}

/// Every register of `r` is zero.
pub open spec fn all_zero(r: X86Regs) -> bool {
    &&& r.rax == 0 && r.rbx == 0 && r.rcx == 0 && r.rdx == 0
    &&& r.rbp == 0 && r.rsi == 0 && r.rdi == 0
    &&& r.r8 == 0 && r.r9 == 0 && r.r10 == 0 && r.r11 == 0
    &&& r.r12 == 0 && r.r13 == 0 && r.r14 == 0 && r.r15 == 0
    &&& r.interrupt_number == 0 && r.error_code == 0
    &&& r.rip == 0 && r.cs == 0 && r.eflags == 0 && r.rsp == 0 && r.ss == 0
}

impl X86Regs {
    /// Registers that are all zero.
    pub fn new() -> (r: X86Regs)
        ensures
            all_zero(r),
    {
        X86Regs {
            rip: 0,
            cs: 0,
            eflags: 0,
            rsp: 0,
            ss: 0,
            interrupt_number: 0,
            error_code: 0,
            rax: 0,
            rbx: 0,
            rcx: 0,
            rdx: 0,
            rbp: 0,
            rsi: 0,
            rdi: 0,
            r8: 0,
            r9: 0,
            r10: 0,
            r11: 0,
            r12: 0,
            r13: 0,
            r14: 0,
            r15: 0,
        }
    }
}

/// The kernel-side register state of a thread.
#[derive(Debug, Clone)]
pub struct ThreadContext {
    pub regs: X86Regs,
}

/// The registers saved on entry to an exception.
pub struct ExceptionContext {
    pub regs: X86Regs,
}

impl ExceptionContext {
    /// An exception context with every register zero.
    pub fn new() -> (r: ExceptionContext)
        ensures
            all_zero(r.regs),
    {
        ExceptionContext { regs: X86Regs::new() }
    }
}

impl ThreadContext {
    /// A thread context with every register zero.
    pub fn new() -> (r: ThreadContext)
        ensures
            all_zero(r.regs),
    {
        ThreadContext { regs: X86Regs::new() }
    }
}

/// The registers a new user thread enters user mode with: its stack and
/// entry point, and the marker values 1 to 15 in the general registers
/// (`rbx` is written twice, so it ends as 3, and `rcx` stays 0).
pub open spec fn user_entry_regs(pc: usize, sp: usize) -> X86Regs {
    X86Regs {
        rax: 1, rbx: 3, rcx: 0, rdx: 4, rbp: 5, rsi: 6, rdi: 7,
        r8: 8, r9: 9, r10: 10, r11: 11, r12: 12, r13: 13, r14: 14, r15: 15,
        interrupt_number: 0, error_code: 0, rip: pc, cs: 0, eflags: 0, rsp: sp, ss: 0,
    }
}

/// The registers a new thread is switched to with: `rip` at `starter`,
/// `rsp` at `stack`, every other register zero.
pub open spec fn thread_start_regs(starter: usize, stack: usize) -> X86Regs {
    X86Regs {
        rax: 0, rbx: 0, rcx: 0, rdx: 0, rbp: 0, rsi: 0, rdi: 0,
        r8: 0, r9: 0, r10: 0, r11: 0, r12: 0, r13: 0, r14: 0, r15: 0,
        interrupt_number: 0, error_code: 0, rip: starter, cs: 0, eflags: 0, rsp: stack, ss: 0,
    }
}

/// The contexts of a new user thread: the exception context, placed at
/// `exc_context_location` on its kernel stack, returns to `usermode_pc` with
/// stack `usermode_sp`; the thread itself starts in `starter` with its stack
/// pointer at the exception context.
pub fn setup_user_context(usermode_pc: usize, usermode_sp: usize, starter: usize, exc_context_location: usize)
    -> (r: (ThreadContext, ExceptionContext))
    ensures
        r.1.regs == user_entry_regs(usermode_pc, usermode_sp),
        r.0.regs == thread_start_regs(starter, exc_context_location),
{
    let mut exc_context = ExceptionContext::new();
    exc_context.regs.rsp = usermode_sp;
    exc_context.regs.rip = usermode_pc;
    exc_context.regs.rax = 1;
    exc_context.regs.rbx = 2;
    exc_context.regs.rbx = 3;
    exc_context.regs.rdx = 4;
    exc_context.regs.rbp = 5;
    exc_context.regs.rsi = 6;
    exc_context.regs.rdi = 7;
    exc_context.regs.r8 = 8;
    exc_context.regs.r9 = 9;
    exc_context.regs.r10 = 10;
    exc_context.regs.r11 = 11;
    exc_context.regs.r12 = 12;
    exc_context.regs.r13 = 13;
    exc_context.regs.r14 = 14;
    exc_context.regs.r15 = 15;
    let mut context = ThreadContext::new();
    context.regs.rip = starter;
    context.regs.rsp = exc_context_location;
    (context, exc_context)
}

} // verus!
