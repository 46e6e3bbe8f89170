use francium::process_load::{load_plan, USER_STACK_BASE, USER_STACK_SIZE};

fn put_u16(b: &mut Vec<u8>, v: u16) {
    b.extend_from_slice(&v.to_le_bytes());
}
fn put_u32(b: &mut Vec<u8>, v: u32) {
    b.extend_from_slice(&v.to_le_bytes());
}
fn put_u64(b: &mut Vec<u8>, v: u64) {
    b.extend_from_slice(&v.to_le_bytes());
}

/// (type, flags, addr, offset, size) of each section header.
fn elf64(entry: u64, sections: &[(u32, u64, u64, u64, u64)]) -> Vec<u8> {
    let mut b = vec![0x7f, b'E', b'L', b'F', 2, 1, 1, 0, 0, 0, 0, 0, 0, 0, 0, 0];
    put_u16(&mut b, 2); // executable
    put_u16(&mut b, 0x3e);
    put_u32(&mut b, 1);
    put_u64(&mut b, entry);
    put_u64(&mut b, 0); // no program headers
    put_u64(&mut b, 64); // section headers right after this header
    put_u32(&mut b, 0);
    put_u16(&mut b, 64);
    put_u16(&mut b, 56);
    put_u16(&mut b, 0);
    put_u16(&mut b, 64);
    put_u16(&mut b, sections.len() as u16);
    put_u16(&mut b, 0);
    assert_eq!(b.len(), 64);
    for &(ty, flags, addr, offset, size) in sections {
        put_u32(&mut b, 0);
        put_u32(&mut b, ty);
        put_u64(&mut b, flags);
        put_u64(&mut b, addr);
        put_u64(&mut b, offset);
        put_u64(&mut b, size);
        put_u32(&mut b, 0);
        put_u32(&mut b, 0);
        put_u64(&mut b, 16);
        put_u64(&mut b, 0);
    }
    b
}

#[test]
fn loaded_sections_and_their_permissions() {
    let image = elf64(
        0x40_1000,
        &[
            (0, 0, 0, 0, 0),                      // null section
            (1, 0x6, 0x40_0000, 0x1000, 0x2000),  // .text: alloc + exec
            (1, 0x3, 0x60_0000, 0x3000, 0x1000),  // .data: write + alloc
            (8, 0x3, 0x70_0000, 0x4000, 0x1000),  // .bss: no bits in the file
            (1, 0x0, 0, 0x4000, 0x80),            // .comment: not allocated
        ],
    );
    let plan = load_plan(&image).expect("a 64-bit image");
    assert_eq!(plan.entry, 0x40_1000);
    let loads: Vec<(u64, u64, u64, u64)> =
        plan.sections.iter().map(|s| (s.start, s.size, s.file_offset, s.permission.bits())).collect();
    assert_eq!(loads, vec![(0x40_0000, 0x2000, 0x1000, 3), (0x60_0000, 0x1000, 0x3000, 1)]);
    assert_eq!((plan.stack_base, plan.stack_size), (USER_STACK_BASE, USER_STACK_SIZE));
    assert_eq!((USER_STACK_BASE, USER_STACK_SIZE), (0x4000_0000, 0x4000));
}

#[test]
fn an_image_without_sections_loads_only_a_stack() {
    let plan = load_plan(&elf64(0x1234, &[])).expect("a 64-bit image");
    assert_eq!(plan.entry, 0x1234);
    assert!(plan.sections.is_empty());
}

#[test]
fn other_files_are_refused() {
    assert!(load_plan(b"#!/bin/sh\necho hello\n").is_none());
    assert!(load_plan(&[0x7f, b'E', b'L', b'F']).is_none());
    let mut image32 = elf64(0, &[]);
    image32[4] = 1; // 32-bit class
    assert!(load_plan(&image32).is_none());
}

#[test]
fn an_image_at_any_address_in_memory_is_read_the_same() {
    let image = elf64(0x40_1000, &[(0, 0, 0, 0, 0), (1, 0x6, 0x40_0000, 0x1000, 0x2000)]);
    for shift in 0..8 {
        let mut padded = vec![0u8; shift];
        padded.extend_from_slice(&image);
        let plan = load_plan(&padded[shift..]).expect("a 64-bit image");
        assert_eq!(plan.entry, 0x40_1000);
        assert_eq!(plan.sections.len(), 1);
        assert_eq!((plan.sections[0].start, plan.sections[0].size), (0x40_0000, 0x2000));
    }
}
