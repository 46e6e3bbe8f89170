use francium::acpi::{parse_rsdp, parse_rsdt, parse_table, read_le_u32, RSDP};
use francium::bump_allocator::BumpAllocator;
use francium::drivers::{
    calculate_baud, first_pending, io_wait, pending_in_word, serial_bytes, split_u16, ArchTimer, BCMGlobalInterrupt, COMPort,
    InterruptController, PITTimer, PortWrite, RegisterWrite, SerialPort, Timer, Writer, GICv2, Pl011Uart, PIC, PIT,
};
use francium::framebuffer::{EarlyFramebuffer, EarlyFramebufferFormat};

fn pw(port: u16, value: u8) -> PortWrite {
    PortWrite { port, value }
}

#[test]
fn pic_end_of_interrupt() {
    assert_eq!(PIC::eoi_writes(3), vec![pw(0x20, 0x20)]);
    assert_eq!(PIC::eoi_writes(10), vec![pw(0xa0, 0x20), pw(0x20, 0x20)]);
}

#[test]
fn pic_masks() {
    assert_eq!(PIC::mask_port(3), (0x21, 3));
    assert_eq!(PIC::mask_port(12), (0xa1, 4));
    assert_eq!(PIC::unmasked(0xff, 2), 0xfb);
    assert_eq!(PIC::masked(0x00, 7), 0x80);
}

#[test]
fn pic_initialisation_sequence() {
    let w = PIC::init_writes(0xb8, 0x8e);
    assert_eq!(w.len(), 18);
    assert_eq!(w[0], pw(0x20, 0x11));
    assert_eq!(w[4], pw(0x21, 32));
    assert_eq!(w[6], pw(0xa1, 40));
    assert_eq!(w[16], pw(0x21, 0xb8));
    assert_eq!(w[17], pw(0xa1, 0x8e));
}

#[test]
fn pit_period_and_counter() {
    let mut pit = PIT::new();
    pit.set_period_us(1000);
    assert_eq!(pit.period_ns, 1_000_000);
    assert_eq!(pit.reload_value, 1193);
    pit.tick();
    pit.tick();
    assert_eq!(pit.get_counter_ns(), 2_000_000);
    assert_eq!(pit.reset_writes(), vec![pw(0x43, 0x36), pw(0x40, 0xa8), pw(0x40, 0x04)]);
    assert_eq!(split_u16(0x1234), (0x34, 0x12));
}

#[test]
fn gic_register_values() {
    assert_eq!(GICv2::config_word(0, 35, true), 0);
    assert_eq!(GICv2::config_word(0x1, 35, false), 0x81);
    assert_eq!(GICv2::config_word(0xffff_ffff, 0, true), 0xffff_fffc);
    assert_eq!(GICv2::config_word(0xffff_ffff, 17, false), 0xffff_fffb);
    assert_eq!(GICv2::config_offset(35), 0xc08);
    assert_eq!(GICv2::enable_write(35), RegisterWrite { offset: 0x104, value: 8 });
    assert_eq!(GICv2::disable_write(64), RegisterWrite { offset: 0x188, value: 1 });
    assert_eq!(GICv2::pending_offset(2), 0x288);
    assert_eq!(GICv2::decode_iar(1023), None);
    assert_eq!(GICv2::decode_iar(0x41e), Some(30));
    let g = GICv2::new(0x0800_0000, 0x0801_0000);
    assert_eq!((g.gicd_base, g.gicc_base), (0x0800_0000, 0x0801_0000));
}

#[test]
fn bcm_pending_registers() {
    assert_eq!(BCMGlobalInterrupt::ack_write(3), RegisterWrite { offset: 0x204, value: 8 });
    assert_eq!(BCMGlobalInterrupt::ack_write(33), RegisterWrite { offset: 0x208, value: 2 });
    assert_eq!(BCMGlobalInterrupt::pending_register(0), Some(0x204));
    assert_eq!(BCMGlobalInterrupt::pending_register(1), Some(0x208));
    assert_eq!(BCMGlobalInterrupt::pending_register(2), None);
}

#[test]
fn pending_words_report_their_highest_bit() {
    assert_eq!(pending_in_word(0, 0), None);
    assert_eq!(pending_in_word(0b1010, 1), Some(35));
    assert_eq!(pending_in_word(0x8000_0000, 0), Some(31));
}

struct ThreeWords([u32; 3]);

impl InterruptController for ThreeWords {
    fn init(&mut self) {}
    fn ack_interrupt(&mut self, _n: u32) {}
    const NUM_PENDING: u32 = 3;
    fn read_pending(&self, i: u32) -> u32 {
        self.0[i as usize]
    }
}

struct TwoWords([u32; 2]);

impl InterruptController for TwoWords {
    fn init(&mut self) {}
    fn ack_interrupt(&mut self, _n: u32) {}
    const NUM_PENDING: u32 = 2;
    fn read_pending(&self, i: u32) -> u32 {
        self.0[i as usize]
    }
}

struct NoWords;

impl InterruptController for NoWords {
    fn init(&mut self) {}
    fn ack_interrupt(&mut self, _n: u32) {}
    const NUM_PENDING: u32 = 0;
    fn read_pending(&self, _i: u32) -> u32 {
        u32::MAX
    }
}

#[test]
fn first_pending_takes_the_first_nonzero_word() {
    assert_eq!(first_pending(&[]), None);
    assert_eq!(first_pending(&[0, 0, 0]), None);
    assert_eq!(first_pending(&[0, 0b0110, 0xffff_ffff]), Some(34));
    assert_eq!(first_pending(&[1, 0x8000_0000]), Some(0));
}

#[test]
fn next_pending_scans_the_words_in_order() {
    assert_eq!(ThreeWords([0, 0b100, 0x8000_0000]).next_pending(), Some(34));
    assert_eq!(TwoWords([0, 0]).next_pending(), None);
    assert_eq!(NoWords.next_pending(), None);
}

struct Recorder(Vec<u8>);

impl SerialPort for Recorder {
    fn read_byte(&mut self) -> u8 {
        0
    }
    fn write_byte(&mut self, byte: u8) {
        self.0.push(byte);
    }
}

#[test]
fn serial_ports_send_bytes() {
    let mut r = Recorder(Vec::new());
    r.write_string("hi\n");
    r.write_bytes(&[1, 2]);
    assert_eq!(r.0, vec![b'h', b'i', b'\n', 1, 2]);
    assert_eq!(serial_bytes("é"), vec![0xe9]);
}

#[test]
fn pl011_setup() {
    assert_eq!(calculate_baud(115200, 48_000_000), (26, 3));
    let u = Pl011Uart::new(0x0900_0000, 115200);
    let w = u.init_writes(48_000_000);
    assert_eq!(
        w,
        vec![
            RegisterWrite { offset: 0x30, value: 0 },
            RegisterWrite { offset: 0x44, value: 0x7ff },
            RegisterWrite { offset: 0x24, value: 26 },
            RegisterWrite { offset: 0x28, value: 3 },
            RegisterWrite { offset: 0x2c, value: 0x60 },
            RegisterWrite { offset: 0x30, value: 0x301 },
        ]
    );
}

fn rsdp_bytes() -> Vec<u8> {
    let mut b = b"RSD PTR ".to_vec();
    b.push(0x5a);
    b.extend_from_slice(b"BOCHS ");
    b.push(0);
    b.extend_from_slice(&0x07fe_14d5u32.to_le_bytes());
    b
}

#[test]
fn rsdp_fields() {
    match parse_rsdp(&rsdp_bytes()) {
        RSDP::Normal(p) => {
            assert_eq!(&p.magic, b"RSD PTR ");
            assert_eq!(p.checksum, 0x5a);
            assert_eq!(&p.oem_id, b"BOCHS ");
            assert_eq!(p.revision, 0);
            assert_eq!(p.rsdt_address, 0x07fe_14d5);
        },
        RSDP::Extended(_) => panic!("revision 0 is the 32-bit layout"),
    }
    assert_eq!(read_le_u32(&[1, 2, 3, 4, 5], 1), 0x0504_0302);
}

fn rsdt_bytes(entries: &[u32]) -> Vec<u8> {
    let length = 36 + 4 * entries.len() as u32;
    let mut b = b"RSDT".to_vec();
    b.extend_from_slice(&length.to_le_bytes());
    b.push(1);
    b.push(0xcc);
    b.extend_from_slice(b"BOCHS ");
    b.extend_from_slice(b"BXPC    ");
    b.extend_from_slice(&1u32.to_le_bytes());
    b.extend_from_slice(&0x4350_5842u32.to_le_bytes());
    b.extend_from_slice(&1u32.to_le_bytes());
    for e in entries {
        b.extend_from_slice(&e.to_le_bytes());
    }
    b.extend_from_slice(&[0, 0, 0]);
    b
}

#[test]
fn rsdt_lists_its_tables() {
    let bytes = rsdt_bytes(&[0x07fe_1a00, 0x07fe_1b00]);
    let (h, entries) = parse_rsdt(&bytes);
    assert_eq!(&h.signature, b"RSDT");
    assert_eq!(h.length, 44);
    assert_eq!(h.revision, 1);
    assert_eq!(h.checksum, 0xcc);
    assert_eq!(&h.oem_table_id, b"BXPC    ");
    assert_eq!(h.creator_id, 0x4350_5842);
    assert_eq!(entries, vec![0x07fe_1a00, 0x07fe_1b00]);
    let t = parse_table(&bytes);
    assert_eq!(t.oem_revision, 1);
    let (_, none) = parse_rsdt(&rsdt_bytes(&[]));
    assert!(none.is_empty());
}

#[test]
fn bump_allocation_aligns_and_grows() {
    let mut heap = BumpAllocator::new(0x1000_0000, 0x1000);
    let a = heap.allocate(0x10, 8);
    assert_eq!((a.ptr, a.expand_to), (0x1000_0000, None));
    let b = heap.allocate(0x20, 0x100);
    assert_eq!((b.ptr, b.expand_to), (0x1000_0100, None));
    let c = heap.allocate(0x1000, 16);
    assert_eq!(c.ptr, 0x1000_0120);
    assert_eq!(c.expand_to, Some(0x2000));
    assert_eq!(heap.alloc_start, 0x1000_1120);
    assert_eq!(heap.alloc_present, 0x1000_2000);
}

fn screen(width: usize, height: usize) -> EarlyFramebuffer {
    EarlyFramebuffer {
        framebuffer: vec![0x77; width * height * 4],
        pixel_format: EarlyFramebufferFormat::Rgb,
        width,
        height,
        stride: width,
        bytes_per_pixel: 4,
        x: 0,
        y: 0,
    }
}

fn font() -> Vec<[u8; 8]> {
    let mut f = vec![[0u8; 8]; 128];
    // 'A': a single pixel in the top left corner; '#': every pixel.
    f['A' as usize] = [1, 0, 0, 0, 0, 0, 0, 0];
    f['#' as usize] = [0xff; 8];
    f
}

fn pixel(fb: &EarlyFramebuffer, x: usize, y: usize) -> [u8; 4] {
    let o = (x + y * fb.stride) * fb.bytes_per_pixel;
    [fb.framebuffer[o], fb.framebuffer[o + 1], fb.framebuffer[o + 2], fb.framebuffer[o + 3]]
}

#[test]
fn clear_blanks_colour_bytes_only() {
    let mut fb = screen(16, 16);
    fb.clear();
    assert_eq!(pixel(&fb, 3, 5), [0, 0, 0, 0x77]);
}

#[test]
fn print_draws_glyphs_and_moves_the_cursor() {
    let mut fb = screen(16, 16);
    fb.print("A#", &font());
    assert_eq!((fb.x, fb.y), (0, 8));
    assert_eq!(pixel(&fb, 0, 0), [0xff, 0xff, 0xff, 0x77]);
    assert_eq!(pixel(&fb, 1, 0), [0, 0, 0, 0x77]);
    assert_eq!(pixel(&fb, 9, 7), [0xff, 0xff, 0xff, 0x77]);
    assert_eq!(pixel(&fb, 3, 9), [0x77, 0x77, 0x77, 0x77]);
}

#[test]
fn printing_past_the_bottom_scrolls() {
    let mut fb = screen(8, 16);
    fb.print("#\nA", &font());
    // The newline after '#' scrolled the screen once; 'A' filled the last
    // line and wrapped, which scrolled it up to the first line.
    assert_eq!((fb.x, fb.y), (0, 8));
    assert_eq!(pixel(&fb, 0, 0), [0xff, 0xff, 0xff, 0]);
    assert_eq!(pixel(&fb, 1, 0), [0, 0, 0, 0]);
    assert_eq!(pixel(&fb, 0, 8), [0, 0, 0, 0]);
}

#[test]
fn print_on_a_screen_of_partial_cells() {
    // 12 x 12 pixels: the second cell of a row and the second row of cells
    // are partly off screen, inside the stride and the buffer.
    let mut fb = EarlyFramebuffer {
        framebuffer: vec![0x77; 16 * 16 * 4],
        pixel_format: EarlyFramebufferFormat::Rgb,
        width: 12,
        height: 12,
        stride: 16,
        bytes_per_pixel: 4,
        x: 0,
        y: 0,
    };
    fb.print("##", &font());
    assert_eq!((fb.x, fb.y), (0, 8));
    assert_eq!(pixel(&fb, 15, 7), [0xff, 0xff, 0xff, 0x77]);
    fb.print("A#", &font());
    // The cell at row 8 was drawn, then the wrap past the bottom scrolled.
    assert_eq!((fb.x, fb.y), (0, 8));
    assert_eq!(pixel(&fb, 0, 0), [0xff, 0xff, 0xff, 0x77]);
    assert_eq!(pixel(&fb, 9, 3), [0xff, 0xff, 0xff, 0x77]);
}

#[test]
fn uarts_send_strings_as_data_writes() {
    assert_eq!(COMPort::write_string("hi"), vec![pw(0x3f8, b'h'), pw(0x3f8, b'i')]);
    assert_eq!(COMPort::write_bytes(&[7]), vec![pw(0x3f8, 7)]);
    assert_eq!(
        Pl011Uart::write_string("é!"),
        vec![RegisterWrite { offset: 0, value: 0xe9 }, RegisterWrite { offset: 0, value: 0x21 }]
    );
    assert_eq!(Pl011Uart::write_bytes(&[]), vec![]);
    assert!(Pl011Uart::can_send(0x10));
    assert!(!Pl011Uart::can_send(0x20));
    assert!(Pl011Uart::can_receive(0x20));
    assert!(!Pl011Uart::can_receive(0x10));
}

#[test]
fn pc_serial_port_registers() {
    let com = COMPort::new(0x3f8);
    assert_eq!(com.init_write(), pw(0x3fb, 3));
    assert_eq!(com.line_status_port(), 0x3fd);
    assert!(COMPort::can_send(0x60));
    assert!(!COMPort::can_send(0x01));
    // Bytes always go to the first port's data register.
    assert_eq!(COMPort::data_write(b'x'), pw(0x3f8, b'x'));
    assert_eq!(COMPort::new(0x2f8).init_write(), pw(0x2fb, 3));
    assert_eq!(io_wait(), pw(0x80, 0));
}

#[test]
fn writer_sends_through_the_port() {
    let mut r = Recorder(Vec::new());
    let mut w = Writer { uart: &mut r };
    assert_eq!(w.write_str("ok"), Ok(()));
    assert_eq!(r.0, b"ok".to_vec());
}

#[test]
fn stub_pit_timer_counts_nothing() {
    let mut t = PITTimer::new();
    t.init();
    t.set_period_us(1000);
    t.tick();
    assert_eq!(t.get_counter_ns(), 0);
}

#[test]
fn generic_timer_arithmetic() {
    let _ = ArchTimer::new();
    assert_eq!(ArchTimer::period_ticks(62_500_000, 1000), 62_000);
    assert_eq!(ArchTimer::counter_ns(1000, 62_500_000), 16_000);
    assert_eq!(ArchTimer::counter_ns(5, 1_000_000_000), 5);
}
