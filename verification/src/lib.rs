//! The verified core of the francium kernel: page tables and address
//! spaces, descriptor tables, the decisions of the exception, interrupt and
//! system call handlers, the register-level logic of the drivers, the early
//! console, and the parsing done at boot.
use vstd::prelude::*;

pub mod align;
pub mod types;
pub mod page_table;
pub mod table_tree;
pub mod aarch64_page_table;
pub mod x86_page_table;
pub mod gdt;
pub mod idt;
pub mod aarch64_context;
pub mod x86_context;
pub mod aarch64_exceptions;
pub mod x86_exceptions;
pub mod aarch64_syscalls;
pub mod framebuffer;
pub mod drivers;
pub mod acpi;
pub mod bump_allocator;
pub mod process_load;
pub mod memory;
pub mod cpuid;
pub mod init;

