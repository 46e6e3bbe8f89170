//! Saved register state of AArch64 threads and exceptions.
use vstd::prelude::*;

verus! {

/// The kernel-side register state of a thread.
#[derive(Debug, Clone)]
pub struct ThreadContext {
    /// General registers; index 31 holds the kernel stack pointer.
    pub regs: [usize; 32],
    /// The NEON / floating-point registers, as raw bytes.
    pub neon: [[u8; 16]; 32],
}

/// The registers saved on entry to an exception.
pub struct ExceptionContext {
    /// General registers; index 31 holds the user stack pointer.
    pub regs: [usize; 32],
    pub saved_pc: usize,
    pub saved_spsr: usize,
    pub saved_tpidr: usize,
}

impl ExceptionContext {
    /// An exception context with every register zero.
    pub fn new() -> (r: ExceptionContext)
        ensures
            forall|i: int| 0 <= i < 32 ==> r.regs[i] == 0,
            r.saved_pc == 0,
            r.saved_spsr == 0,
            r.saved_tpidr == 0,
    {
        ExceptionContext { regs: [0usize; 32], saved_pc: 0, saved_spsr: 0, saved_tpidr: 0 }
    }
}

impl ThreadContext {
    /// A thread context with every register zero.
    pub fn new() -> (r: ThreadContext)
        ensures
            forall|i: int| 0 <= i < 32 ==> r.regs[i] == 0,
            forall|i: int, j: int| 0 <= i < 32 && 0 <= j < 16 ==> r.neon[i][j] == 0,
    {
        ThreadContext { regs: [0usize; 32], neon: [[0u8; 16]; 32] }
    }
}

/// The contexts of a new user thread: the exception context, placed at
/// `exc_context_location` on its kernel stack, returns to `usermode_pc` with
/// stack `usermode_sp`, a zero `spsr` and the thread-local pointer `tls`; the
/// thread itself starts in `starter` (the link register) with its stack
/// pointer at the exception context.
pub fn setup_user_context(usermode_pc: usize, usermode_sp: usize, tls: usize, starter: usize, exc_context_location: usize)
    -> (r: (ThreadContext, ExceptionContext))
    ensures
        forall|i: int| 0 <= i < 31 ==> r.1.regs[i] == 0,
        r.1.regs[31] == usermode_sp,
        r.1.saved_pc == usermode_pc,
        r.1.saved_spsr == 0,
        r.1.saved_tpidr == tls,
        forall|i: int| 0 <= i < 30 ==> r.0.regs[i] == 0,
        r.0.regs[30] == starter,
        r.0.regs[31] == exc_context_location,
        forall|i: int, j: int| 0 <= i < 32 && 0 <= j < 16 ==> r.0.neon[i][j] == 0,
{
    let mut exc_context = ExceptionContext::new();
    exc_context.regs[31] = usermode_sp;
    exc_context.saved_pc = usermode_pc;
    exc_context.saved_spsr = 0;
    exc_context.saved_tpidr = tls;
    let mut context = ThreadContext::new();
    context.regs[30] = starter;
    context.regs[31] = exc_context_location;
    (context, exc_context)
}

} // verus!
