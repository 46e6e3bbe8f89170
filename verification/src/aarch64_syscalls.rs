//! The AArch64 system call convention: arguments come in `x0`..`x4` of the
//! saved exception context, results go back in `x0` and `x1`.
use vstd::prelude::*;
use crate::aarch64_context::ExceptionContext;

verus! {

/// A decoded system call with its arguments.
#[derive(Debug, Copy, Clone, PartialEq, Eq, Structural)]
pub enum SyscallRequest {
    Break,
    DebugOutput { ptr: usize, len: usize },
    CreatePort { tag: u64 },
    ConnectToNamedPort { tag: u64 },
    ExitProcess,
    CloseHandle { handle: u32 },
    IpcRequest { handle: u32, ipc_buffer: usize },
    IpcReply { handle: u32, ipc_buffer: usize },
    IpcReceive { handles: usize, count: usize, ipc_buffer: usize },
    IpcAccept { handle: u32 },
    GetProcessId,
    ConnectToPortHandle { handle: u32 },
    MapMemory { address: usize, length: usize, permission: u64 },
    SleepNs { ns: u64 },
    GetThreadId,
    CreateThread { entry_point: usize, stack_top: usize },
    FutexWait { addr: usize, expected: u32, timeout_ns: usize },
    FutexWake { addr: usize },
    MapDeviceMemory { phys: u64, virt: usize, length: usize, map_type: usize, permission: u64 },
    GetSystemInfo { ty: usize, index: usize, out_ptr: usize },
    GetSystemTick,
    QueryPhysicalAddress { addr: usize },
    CreateEvent,
    BindInterrupt { handle: u32, index: usize },
    UnbindInterrupt { handle: u32, index: usize },
    WaitOne { handle: u32 },
    SignalEvent { handle: u32 },
    ClearEvent { handle: u32 },
    WaitMany { handles: usize, count: usize },
    CreateSession { server_out: usize, client_out: usize },
}

/// The request that system call `number` makes with argument registers `r`.
pub open spec fn syscall_spec(number: u64, r: Seq<usize>) -> Option<SyscallRequest> {
    if number == 0 || number == 14 {
        Some(SyscallRequest::Break)
    } else if number == 1 {
        Some(SyscallRequest::DebugOutput { ptr: r[0], len: r[1] })
    } else if number == 2 {
        Some(SyscallRequest::CreatePort { tag: r[0] as u64 })
    } else if number == 3 {
        Some(SyscallRequest::ConnectToNamedPort { tag: r[0] as u64 })
    } else if number == 4 {
        Some(SyscallRequest::ExitProcess)
    } else if number == 5 {
        Some(SyscallRequest::CloseHandle { handle: r[0] as u32 })
    } else if number == 6 {
        Some(SyscallRequest::IpcRequest { handle: r[0] as u32, ipc_buffer: r[1] })
    } else if number == 7 {
        Some(SyscallRequest::IpcReply { handle: r[0] as u32, ipc_buffer: r[1] })
    } else if number == 8 {
        Some(SyscallRequest::IpcReceive { handles: r[0], count: r[1], ipc_buffer: r[2] })
    } else if number == 9 {
        Some(SyscallRequest::IpcAccept { handle: r[0] as u32 })
    } else if number == 10 {
        Some(SyscallRequest::GetProcessId)
    } else if number == 11 {
        Some(SyscallRequest::ConnectToPortHandle { handle: r[0] as u32 })
    } else if number == 12 {
        Some(SyscallRequest::MapMemory { address: r[0], length: r[1], permission: r[2] as u64 })
    } else if number == 13 {
        Some(SyscallRequest::SleepNs { ns: r[0] as u64 })
    } else if number == 15 {
        Some(SyscallRequest::GetThreadId)
    } else if number == 16 {
        Some(SyscallRequest::CreateThread { entry_point: r[0], stack_top: r[1] })
    } else if number == 17 {
        Some(SyscallRequest::FutexWait { addr: r[0], expected: r[1] as u32, timeout_ns: r[2] })
    } else if number == 18 {
        Some(SyscallRequest::FutexWake { addr: r[0] })
    } else if number == 19 {
        Some(SyscallRequest::MapDeviceMemory {
            phys: r[0] as u64, virt: r[1], length: r[2], map_type: r[3], permission: r[4] as u64,
        })
    } else if number == 20 {
        Some(SyscallRequest::GetSystemInfo { ty: r[0], index: r[1], out_ptr: r[2] })
    } else if number == 21 {
        Some(SyscallRequest::GetSystemTick)
    } else if number == 22 {
        Some(SyscallRequest::QueryPhysicalAddress { addr: r[0] })
    } else if number == 23 {
        Some(SyscallRequest::CreateEvent)
    } else if number == 24 {
        Some(SyscallRequest::BindInterrupt { handle: r[0] as u32, index: r[1] })
    } else if number == 25 {
        Some(SyscallRequest::UnbindInterrupt { handle: r[0] as u32, index: r[1] })
    } else if number == 26 {
        Some(SyscallRequest::WaitOne { handle: r[0] as u32 })
    } else if number == 27 {
        Some(SyscallRequest::SignalEvent { handle: r[0] as u32 })
    } else if number == 28 {
        Some(SyscallRequest::ClearEvent { handle: r[0] as u32 })
    } else if number == 29 {
        Some(SyscallRequest::WaitMany { handles: r[0], count: r[1] })
    } else if number == 30 {
        Some(SyscallRequest::CreateSession { server_out: r[0], client_out: r[1] })
    } else {
        None
    }
}

/// The arguments a request carries, in the order its fields are declared.
pub open spec fn arguments(req: SyscallRequest) -> Seq<int> {
    match req {
        SyscallRequest::Break => seq![],
        SyscallRequest::DebugOutput { ptr, len } => seq![ptr as int, len as int],
        SyscallRequest::CreatePort { tag } => seq![tag as int],
        SyscallRequest::ConnectToNamedPort { tag } => seq![tag as int],
        SyscallRequest::ExitProcess => seq![],
        SyscallRequest::CloseHandle { handle } => seq![handle as int],
        SyscallRequest::IpcRequest { handle, ipc_buffer } => seq![handle as int, ipc_buffer as int],
        SyscallRequest::IpcReply { handle, ipc_buffer } => seq![handle as int, ipc_buffer as int],
        SyscallRequest::IpcReceive { handles, count, ipc_buffer } => seq![handles as int, count as int, ipc_buffer as int],
        SyscallRequest::IpcAccept { handle } => seq![handle as int],
        SyscallRequest::GetProcessId => seq![],
        SyscallRequest::ConnectToPortHandle { handle } => seq![handle as int],
        SyscallRequest::MapMemory { address, length, permission } => seq![address as int, length as int, permission as int],
        SyscallRequest::SleepNs { ns } => seq![ns as int],
        SyscallRequest::GetThreadId => seq![],
        SyscallRequest::CreateThread { entry_point, stack_top } => seq![entry_point as int, stack_top as int],
        SyscallRequest::FutexWait { addr, expected, timeout_ns } => seq![addr as int, expected as int, timeout_ns as int],
        SyscallRequest::FutexWake { addr } => seq![addr as int],
        SyscallRequest::MapDeviceMemory { phys, virt, length, map_type, permission } =>
            seq![phys as int, virt as int, length as int, map_type as int, permission as int],
        SyscallRequest::GetSystemInfo { ty, index, out_ptr } => seq![ty as int, index as int, out_ptr as int],
        SyscallRequest::GetSystemTick => seq![],
        SyscallRequest::QueryPhysicalAddress { addr } => seq![addr as int],
        SyscallRequest::CreateEvent => seq![],
        SyscallRequest::BindInterrupt { handle, index } => seq![handle as int, index as int],
        SyscallRequest::UnbindInterrupt { handle, index } => seq![handle as int, index as int],
        SyscallRequest::WaitOne { handle } => seq![handle as int],
        SyscallRequest::SignalEvent { handle } => seq![handle as int],
        SyscallRequest::ClearEvent { handle } => seq![handle as int],
        SyscallRequest::WaitMany { handles, count } => seq![handles as int, count as int],
        SyscallRequest::CreateSession { server_out, client_out } => seq![server_out as int, client_out as int],
    }
}

/// Law: every decoded request takes its `k`-th argument from register
/// `x{k}` (truncated to 32 bits where the argument is a handle or a 32-bit
/// value), for `k` below 5.
pub proof fn lemma_arguments_come_in_order(number: u64, r: Seq<usize>)
    requires
        r.len() >= 5,
    ensures
        syscall_spec(number, r) matches Some(req) ==> {
            &&& arguments(req).len() <= 5
            &&& forall|k: int| 0 <= k < arguments(req).len() ==>
                #[trigger] arguments(req)[k] == r[k] as int || arguments(req)[k] == (r[k] as u32) as int
        },
{
}

/// Decodes system call `number` (the SVC immediate) from the saved registers;
/// `None` when the number has no entry in the system call table.
pub fn decode_syscall(number: u64, ctx: &ExceptionContext) -> (r: Option<SyscallRequest>)
    ensures
        r == syscall_spec(number, ctx.regs@),
{
    let r0 = ctx.regs[0];
    let r1 = ctx.regs[1];
    let r2 = ctx.regs[2];
    let r3 = ctx.regs[3];
    let r4 = ctx.regs[4];
    match number {
        0 => Some(SyscallRequest::Break),
        1 => Some(SyscallRequest::DebugOutput { ptr: r0, len: r1 }),
        2 => Some(SyscallRequest::CreatePort { tag: r0 as u64 }),
        3 => Some(SyscallRequest::ConnectToNamedPort { tag: r0 as u64 }),
        4 => Some(SyscallRequest::ExitProcess),
        5 => Some(SyscallRequest::CloseHandle { handle: r0 as u32 }),
        6 => Some(SyscallRequest::IpcRequest { handle: r0 as u32, ipc_buffer: r1 }),
        7 => Some(SyscallRequest::IpcReply { handle: r0 as u32, ipc_buffer: r1 }),
        8 => Some(SyscallRequest::IpcReceive { handles: r0, count: r1, ipc_buffer: r2 }),
        9 => Some(SyscallRequest::IpcAccept { handle: r0 as u32 }),
        10 => Some(SyscallRequest::GetProcessId),
        11 => Some(SyscallRequest::ConnectToPortHandle { handle: r0 as u32 }),
        12 => Some(SyscallRequest::MapMemory { address: r0, length: r1, permission: r2 as u64 }),
        13 => Some(SyscallRequest::SleepNs { ns: r0 as u64 }),
        14 => Some(SyscallRequest::Break),
        15 => Some(SyscallRequest::GetThreadId),
        16 => Some(SyscallRequest::CreateThread { entry_point: r0, stack_top: r1 }),
        17 => Some(SyscallRequest::FutexWait { addr: r0, expected: r1 as u32, timeout_ns: r2 }),
        18 => Some(SyscallRequest::FutexWake { addr: r0 }),
        19 => Some(SyscallRequest::MapDeviceMemory {
            phys: r0 as u64,
            virt: r1,
            length: r2,
            map_type: r3,
            permission: r4 as u64,
        }),
        20 => Some(SyscallRequest::GetSystemInfo { ty: r0, index: r1, out_ptr: r2 }),
        21 => Some(SyscallRequest::GetSystemTick),
        22 => Some(SyscallRequest::QueryPhysicalAddress { addr: r0 }),
        23 => Some(SyscallRequest::CreateEvent),
        24 => Some(SyscallRequest::BindInterrupt { handle: r0 as u32, index: r1 }),
        25 => Some(SyscallRequest::UnbindInterrupt { handle: r0 as u32, index: r1 }),
        26 => Some(SyscallRequest::WaitOne { handle: r0 as u32 }),
        27 => Some(SyscallRequest::SignalEvent { handle: r0 as u32 }),
        28 => Some(SyscallRequest::ClearEvent { handle: r0 as u32 }),
        29 => Some(SyscallRequest::WaitMany { handles: r0, count: r1 }),
        30 => Some(SyscallRequest::CreateSession { server_out: r0, client_out: r1 }),
        _ => None,
    }
}

/// What a system call hands back to user mode.
#[derive(Debug, Copy, Clone, PartialEq, Eq, Structural)]
pub enum SyscallOutcome {
    /// Nothing is written back.
    Unit,
    /// A result code, written to `x0`.
    Code(u32),
    /// A result code and a value, written to `x0` and `x1`.
    CodeAndValue(u32, usize),
    /// A plain value (an id or a tick count), written to `x0`.
    Value(usize),
}

/// Writes a system call's outcome into the saved registers.
pub fn complete_syscall(ctx: &mut ExceptionContext, outcome: SyscallOutcome)
    ensures
        final(ctx).saved_pc == old(ctx).saved_pc,
        final(ctx).saved_spsr == old(ctx).saved_spsr,
        final(ctx).saved_tpidr == old(ctx).saved_tpidr,
        final(ctx).regs@ == match outcome {
            SyscallOutcome::Unit => old(ctx).regs@,
            SyscallOutcome::Code(c) => old(ctx).regs@.update(0, c as usize),
            SyscallOutcome::CodeAndValue(c, v) => old(ctx).regs@.update(0, c as usize).update(1, v),
            SyscallOutcome::Value(v) => old(ctx).regs@.update(0, v),
        },
{
    match outcome {
        SyscallOutcome::Unit => {},
        SyscallOutcome::Code(c) => {
            ctx.regs[0] = c as usize;
        },
        SyscallOutcome::CodeAndValue(c, v) => {
            ctx.regs[0] = c as usize;
            ctx.regs[1] = v;
        },
        SyscallOutcome::Value(v) => {
            ctx.regs[0] = v;
        },
    }
}

} // verus!
