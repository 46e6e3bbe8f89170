# francium

The machine-independent core of the francium kernel (x86-64 and AArch64),
written in Verus: the functions in `src/` carry contracts that Verus
proves, except the few `external_body` wrappers around `elf_rs`, `smallvec`
and `bytemuck`, whose contracts are trusted and say so in their doc comments.

- `page_table`, `aarch64_page_table`, `x86_page_table`: four-level page
  tables, the entry encodings of both architectures, mapping of 4 KiB pages
  and 2 MiB / 1 GiB blocks, and the translation walk. Table pages live in a
  `TableMemory` keyed by physical address.
- `table_tree`: the shape the tables keep within a range of root entries (a
  tree), and the laws that installing a page mapping keeps that shape and
  that installing a page or block mapping changes no other page's
  translation.
- `memory`: address spaces — a page table and its regions, created, grown,
  aliased onto physical memory or merged with an overlapping region.
- `process_load`: which regions an ELF image asks for (read with `elf_rs`
  from an 8-byte aligned copy of the file), creating them in an address
  space, and the MSR values for `syscall` entry.
- `gdt`, `idt`, `x86_context`, `aarch64_context`: descriptors and saved
  register state.
- `x86_exceptions`, `aarch64_exceptions`, `aarch64_syscalls`: what the
  exception, interrupt and system call handlers decide.
- `drivers`: the register-level decisions of the interrupt controllers,
  timers and UARTs, as lists of register or port writes.
- `framebuffer`: the early text console (drawing, scrolling, clearing).
- `acpi`, `cpuid`, `init`, `bump_allocator`, `align`: boot-time parsing and
  arithmetic, and the kernel's fixed windows onto physical memory.

`app/` is the host program that builds a bootable disk image, plus the glue
that needs the outside world (logging through `log`, `cpuid`, and the checks
the kernel panics on before it calls into the library). `tests/` exercises the
library on concrete values.
