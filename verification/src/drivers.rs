//! Interrupt controllers, timers and serial ports: the device-independent
//! traits, and the register-level decisions of the drivers.
use vstd::prelude::*;
use vstd::std_specs::bits::{u32_leading_zeros, axiom_u32_leading_zeros};

verus! {

/// The interrupt number that pending word `i` with bits `bits` reports: its
/// highest set bit, counted from bit 0 of word 0.
pub open spec fn pending_number(bits: u32, i: u32) -> int {
    32 * i + 31 - u32_leading_zeros(bits)
}

/// The interrupt that a pending word reports, if any of its bits is set.
pub fn pending_in_word(bits: u32, i: u32) -> (r: Option<u32>)
    requires
        i < 0x0800_0000,
    ensures
        bits == 0 ==> r is None,
        bits != 0 ==> r == Some(pending_number(bits, i) as u32),
        r matches Some(n) ==> (bits >> ((n - 32 * i) as u32)) & 1 != 0,
{
    let zeros = bits.leading_zeros();
    proof {
        axiom_u32_leading_zeros(bits);
    }
    if zeros != 32 {
        Some(32 - (zeros + 1) + i * 32)
    } else {
        None
    }
}

/// The interrupt that pending words `ws` report: the highest set bit of the
/// first nonzero word, counted from bit 0 of word 0; nothing where every word
/// is zero.
pub fn first_pending(ws: &[u32]) -> (r: Option<u32>)
    requires
        ws@.len() <= 0x0800_0000,
    ensures
        r is None <==> forall|j: int| 0 <= j < ws@.len() ==> ws@[j] == 0,
        r matches Some(n) ==> exists|i: int| 0 <= i < ws@.len() && ws@[i] != 0
            && (forall|j: int| 0 <= j < i ==> ws@[j] == 0) && n == #[trigger] pending_number(ws@[i], i as u32),
{
    let mut i: usize = 0;
    while i < ws.len()
        invariant
            i <= ws@.len() <= 0x0800_0000,
            forall|j: int| 0 <= j < i ==> ws@[j] == 0,
        decreases ws.len() - i,
    {
        let found = pending_in_word(ws[i], i as u32);
        if found.is_some() {
            assert(ws@[i as int] != 0);
            assert(found->Some_0 == pending_number(ws@[i as int], i as u32));
            return found;
        }
        i = i + 1;
    }
    None
}

/// An interrupt controller: the per-core interface (GIC CPU interface, local APIC).
pub trait InterruptController {
    fn init(&mut self);

    fn ack_interrupt(&mut self, n: u32);

    /// How many 32-bit pending words the controller has.
    const NUM_PENDING: u32;

    fn read_pending(&self, i: u32) -> u32;

    /// Reads the pending words in order, from word 0, and stops at the first
    /// nonzero one or after the last: the result is `first_pending` of the
    /// words read, word `j` being what `read_pending(j)` returned.
    fn next_pending(&self) -> (r: Option<u32>)
        requires
            Self::NUM_PENDING <= 0x0800_0000,
        ensures
            exists|ws: Seq<u32>| {
                &&& ws.len() <= Self::NUM_PENDING
                &&& forall|j: int| 0 <= j < ws.len() ==> call_ensures(Self::read_pending, (self, j as u32), #[trigger] ws[j])
                &&& forall|j: int| 0 <= j < ws.len() - 1 ==> ws[j] == 0
                &&& r is None ==> ws.len() == Self::NUM_PENDING && forall|j: int| 0 <= j < ws.len() ==> ws[j] == 0
                &&& r matches Some(n) ==> ws.len() > 0 && ws.last() != 0
                    && n == pending_number(ws.last(), (ws.len() - 1) as u32)
            },
    {
        let n = Self::NUM_PENDING;
        let mut words: Vec<u32> = Vec::new();
        let mut i: u32 = 0;
        while i < n
            invariant
                i <= n <= 0x0800_0000,
                n == Self::NUM_PENDING,
                words@.len() == i,
                forall|j: int| 0 <= j < i ==> words@[j] == 0,
                forall|j: int| 0 <= j < i ==> call_ensures(Self::read_pending, (self, j as u32), #[trigger] words@[j]),
            decreases n - i,
        {
            let read = Self::read_pending;
            let bits = read(self, i);
            words.push(bits);
            if bits != 0 {
                let r = first_pending(&words);
                proof {
                    let ws = words@;
                    assert(ws[i as int] != 0);
                    let k = choose|k: int| 0 <= k < ws.len() && ws[k] != 0
                        && (forall|j: int| 0 <= j < k ==> ws[j] == 0) && r->Some_0 == #[trigger] pending_number(ws[k], k as u32);
                    assert(k == i as int);
                    assert(ws.last() == ws[i as int]);
                }
                return r;
            }
            i = i + 1;
        }
        proof {
            let ws = words@;
            assert(ws.len() == Self::NUM_PENDING);
        }
        None
    }
}

/// An interrupt distributor (GIC distributor, I/O APIC).
pub trait InterruptDistributor {
    fn init(&mut self);
    fn enable_interrupt(&mut self, n: u32);
    fn disable_interrupt(&mut self, n: u32);
}

/// A periodic timer.
pub trait Timer {
    fn init(&mut self);
    fn tick(&mut self);
    fn set_period_us(&mut self, n: u64);
    fn reset_timer(&mut self);
    fn enable_timer(&mut self);
    fn get_counter_ns(&self) -> u64;
}

/// The bytes a serial port sends for `s`: each character truncated to 8 bits.
pub open spec fn serial_bytes_spec(s: Seq<char>) -> Seq<u8> {
    Seq::new(s.len(), |i: int| s[i] as u8)
}

/// The bytes a serial port sends for `s`.
pub fn serial_bytes(s: &str) -> (r: Vec<u8>)
    ensures
        r@ == serial_bytes_spec(s@),
{
    let n = s.unicode_len();
    let mut out: Vec<u8> = Vec::new();
    let mut i: usize = 0;
    while i < n
        invariant
            n == s@.len(),
            0 <= i <= n,
            out@ == serial_bytes_spec(s@.take(i as int)),
        decreases n - i,
    {
        let c = s.get_char(i);
        out.push(c as u8);
        assert(out@ =~= serial_bytes_spec(s@.take(i as int + 1)));
        i = i + 1;
    }
    assert(s@.take(n as int) =~= s@);
    out
}

/// A byte-oriented serial port.
pub trait SerialPort {
    fn read_byte(&mut self) -> u8;
    fn write_byte(&mut self, byte: u8);

    /// Sends every character of `a`, truncated to a byte: `write_byte` is
    /// called once for each byte of `serial_bytes_spec(a@)`, in order;
    /// `calls[k]` is the call that sends byte `k`, made on the port in state
    /// `trace[k]`, and the port goes from `trace[0]`, its state before, to the
    /// last state, its state after.
    fn write_string(&mut self, a: &str) where Self: Sized
        ensures
            exists|trace: Seq<Self>, calls: Seq<&mut Self>| #![trigger trace.len(), calls.len()] {
                &&& trace.len() == serial_bytes_spec(a@).len() + 1
                &&& calls.len() == serial_bytes_spec(a@).len()
                &&& trace[0] == *old(self)
                &&& trace.last() == *final(self)
                &&& forall|k: int| 0 <= k < serial_bytes_spec(a@).len() ==> {
                    &&& mut_ref_current(#[trigger] calls[k]) == trace[k]
                    &&& call_ensures(Self::write_byte, (calls[k], serial_bytes_spec(a@)[k]), ())
                }
            },
    {
        let bytes = serial_bytes(a);
        let ghost mut trace: Seq<Self> = seq![*self];
        let ghost mut calls: Seq<&mut Self> = seq![];
        let mut i: usize = 0;
        while i < bytes.len()
            invariant
                i <= bytes@.len(),
                bytes@ == serial_bytes_spec(a@),
                trace.len() == i + 1,
                calls.len() == i,
                trace[0] == *old(self),
                trace.last() == *self,
                forall|k: int| 0 <= k < i ==> {
                    &&& mut_ref_current(#[trigger] calls[k]) == trace[k]
                    &&& call_ensures(Self::write_byte, (calls[k], bytes@[k]), ())
                },
            decreases bytes.len() - i,
        {
            let ghost before = *self;
            let write = Self::write_byte;
            write(self, bytes[i]);
            proof {
                let b = bytes@[i as int];
                assert(exists|r: &mut Self| mut_ref_current(r) == before && call_ensures(Self::write_byte, (r, b), ()));
                let r = choose|r: &mut Self| mut_ref_current(r) == before && call_ensures(Self::write_byte, (r, b), ());
                trace = trace.push(*self);
                calls = calls.push(r);
            }
            i = i + 1;
        }
    }

    /// Sends every byte of `a`: `write_byte` is called once for each byte, in
    /// order; `calls[k]` sends byte `k` from port state `trace[k]`, as for
    /// `write_string`.
    fn write_bytes(&mut self, a: &[u8]) where Self: Sized
        ensures
            exists|trace: Seq<Self>, calls: Seq<&mut Self>| #![trigger trace.len(), calls.len()] {
                &&& trace.len() == a@.len() + 1
                &&& calls.len() == a@.len()
                &&& trace[0] == *old(self)
                &&& trace.last() == *final(self)
                &&& forall|k: int| 0 <= k < a@.len() ==> {
                    &&& mut_ref_current(#[trigger] calls[k]) == trace[k]
                    &&& call_ensures(Self::write_byte, (calls[k], a@[k]), ())
                }
            },
    {
        let ghost mut trace: Seq<Self> = seq![*self];
        let ghost mut calls: Seq<&mut Self> = seq![];
        let mut i: usize = 0;
        while i < a.len()
            invariant
                i <= a@.len(),
                trace.len() == i + 1,
                calls.len() == i,
                trace[0] == *old(self),
                trace.last() == *self,
                forall|k: int| 0 <= k < i ==> {
                    &&& mut_ref_current(#[trigger] calls[k]) == trace[k]
                    &&& call_ensures(Self::write_byte, (calls[k], a@[k]), ())
                },
            decreases a.len() - i,
        {
            let ghost before = *self;
            let write = Self::write_byte;
            write(self, a[i]);
            proof {
                let b = a@[i as int];
                assert(exists|r: &mut Self| mut_ref_current(r) == before && call_ensures(Self::write_byte, (r, b), ()));
                let r = choose|r: &mut Self| mut_ref_current(r) == before && call_ensures(Self::write_byte, (r, b), ());
                trace = trace.push(*self);
                calls = calls.push(r);
            }
            i = i + 1;
        }
    }
}

/// A 32-bit write to a device register at a byte offset from a base address.
#[derive(Debug, Copy, Clone, PartialEq, Eq, Structural)]
pub struct RegisterWrite {
    pub offset: usize,
    pub value: u32,
}

/// Offsets of the BCM2836 interrupt controller registers.
pub const BCM_PENDING_1: usize = 0x204;
pub const BCM_PENDING_2: usize = 0x208;

/// The Broadcom (Raspberry Pi) interrupt controller.
pub struct BCMGlobalInterrupt {
    pub base_address: usize,
}

impl BCMGlobalInterrupt {
    pub fn new(base_address: usize) -> (r: BCMGlobalInterrupt)
        ensures
            r.base_address == base_address,
    {
        BCMGlobalInterrupt { base_address: base_address }
    }

    /// Acknowledging interrupt `n` writes its bit to the pending register
    /// that holds it.
    pub fn ack_write(n: u32) -> (r: RegisterWrite)
        requires
            n < 64,
        ensures
            n < 32 ==> r == (RegisterWrite { offset: BCM_PENDING_1, value: (1u32 << n) }),
            n >= 32 ==> r == (RegisterWrite { offset: BCM_PENDING_2, value: (1u32 << ((n - 32) as u32)) }),
    {
        if n < 32 {
            RegisterWrite { offset: BCM_PENDING_1, value: 1 << n }
        } else {
            RegisterWrite { offset: BCM_PENDING_2, value: 1 << (n - 32) }
        }
    }

    /// The register that holds pending word `i`; the controller has two.
    pub fn pending_register(i: u32) -> (r: Option<usize>)
        ensures
            r == (if i == 0 { Some(BCM_PENDING_1) } else if i == 1 { Some(BCM_PENDING_2) } else { None::<usize> }),
    {
        if i == 0 {
            Some(BCM_PENDING_1)
        } else if i == 1 {
            Some(BCM_PENDING_2)
        } else {
            None
        }
    }
}

/// The per-core (local) interrupt controller of the BCM2836.
pub struct BCMLocalInterrupt {
    pub base_address: usize,
}

impl BCMLocalInterrupt {
    pub fn new(base_address: usize) -> (r: BCMLocalInterrupt)
        ensures
            r.base_address == base_address,
    {
        BCMLocalInterrupt { base_address: base_address }
    }
}

/// The I/O APIC, at a virtual base address.
pub struct IOApic {
    pub base: usize,
}

impl IOApic {
    pub fn new(base_address_virt: usize) -> (r: IOApic)
        ensures
            r.base == base_address_virt,
    {
        IOApic { base: base_address_virt }
    }
}

/// A byte written to an x86 I/O port.
#[derive(Debug, Copy, Clone, PartialEq, Eq, Structural)]
pub struct PortWrite {
    pub port: u16,
    pub value: u8,
}

pub const PIC1_COMMAND: u16 = 0x20;
pub const PIC2_COMMAND: u16 = 0xa0;
pub const PIC1_DATA: u16 = 0x21;
pub const PIC2_DATA: u16 = 0xa1;
pub const PIC_CMD_EOI: u8 = 0x20;
/// The port written to give the bus time between PIC commands.
pub const IO_WAIT_PORT: u16 = 0x80;

/// The 8259 programmable interrupt controller pair.
pub struct PIC {}

impl PIC {
    pub fn new() -> (r: PIC) {
        PIC {}
    }

    /// End-of-interrupt commands for IRQ `interrupt`: to the slave for IRQs
    /// 8 and up, then always to the master.
    pub fn eoi_writes(interrupt: u8) -> (r: Vec<PortWrite>)
        ensures
            interrupt >= 8 ==> r@ == seq![PortWrite { port: PIC2_COMMAND, value: PIC_CMD_EOI },
                PortWrite { port: PIC1_COMMAND, value: PIC_CMD_EOI }],
            interrupt < 8 ==> r@ == seq![PortWrite { port: PIC1_COMMAND, value: PIC_CMD_EOI }],
    {
        let mut v: Vec<PortWrite> = Vec::new();
        if interrupt >= 8 {
            v.push(PortWrite { port: PIC2_COMMAND, value: PIC_CMD_EOI });
        }
        v.push(PortWrite { port: PIC1_COMMAND, value: PIC_CMD_EOI });
        v
    }

    /// The data port holding the mask bit of IRQ `n`, and that bit's position.
    pub fn mask_port(n: u32) -> (r: (u16, u8))
        requires
            n < 16,
        ensures
            n < 8 ==> r == (PIC1_DATA, n as u8),
            n >= 8 ==> r == (PIC2_DATA, (n - 8) as u8),
    {
        if n < 8 {
            (PIC1_DATA, n as u8)
        } else {
            (PIC2_DATA, (n - 8) as u8)
        }
    }

    /// The mask after enabling (clearing) bit `bit`.
    pub fn unmasked(mask: u8, bit: u8) -> (r: u8)
        requires
            bit < 8,
        ensures
            r == mask & !(1u8 << bit),
    {
        mask & !(1 << bit)
    }

    /// The mask after disabling (setting) bit `bit`.
    pub fn masked(mask: u8, bit: u8) -> (r: u8)
        requires
            bit < 8,
        ensures
            r == mask | (1u8 << bit),
    {
        mask | 1 << bit
    }

    /// The port writes that remap the master PIC to vectors 32..40 and the
    /// slave to 40..48, then restore the saved masks `a1` and `a2`.
    pub fn init_writes(a1: u8, a2: u8) -> (r: Vec<PortWrite>)
        ensures
            r@ == seq![
                PortWrite { port: PIC1_COMMAND, value: 0x11 },
                PortWrite { port: IO_WAIT_PORT, value: 0 },
                PortWrite { port: PIC2_COMMAND, value: 0x11 },
                PortWrite { port: IO_WAIT_PORT, value: 0 },
                PortWrite { port: PIC1_DATA, value: 32 },
                PortWrite { port: IO_WAIT_PORT, value: 0 },
                PortWrite { port: PIC2_DATA, value: 40 },
                PortWrite { port: IO_WAIT_PORT, value: 0 },
                PortWrite { port: PIC1_DATA, value: 4 },
                PortWrite { port: IO_WAIT_PORT, value: 0 },
                PortWrite { port: PIC2_DATA, value: 2 },
                PortWrite { port: IO_WAIT_PORT, value: 0 },
                PortWrite { port: PIC1_DATA, value: 1 },
                PortWrite { port: IO_WAIT_PORT, value: 0 },
                PortWrite { port: PIC2_DATA, value: 1 },
                PortWrite { port: IO_WAIT_PORT, value: 0 },
                PortWrite { port: PIC1_DATA, value: a1 },
                PortWrite { port: PIC2_DATA, value: a2 },
            ],
    {
        let icw1: u8 = 0x10 | 0x01;
        let offset1: u8 = 32;
        let offset2: u8 = 32 + 8;
        let mut v: Vec<PortWrite> = Vec::new();
        v.push(PortWrite { port: PIC1_COMMAND, value: icw1 });
        v.push(PortWrite { port: IO_WAIT_PORT, value: 0 });
        v.push(PortWrite { port: PIC2_COMMAND, value: icw1 });
        v.push(PortWrite { port: IO_WAIT_PORT, value: 0 });
        v.push(PortWrite { port: PIC1_DATA, value: offset1 });
        v.push(PortWrite { port: IO_WAIT_PORT, value: 0 });
        v.push(PortWrite { port: PIC2_DATA, value: offset2 });
        v.push(PortWrite { port: IO_WAIT_PORT, value: 0 });
        v.push(PortWrite { port: PIC1_DATA, value: 4 });
        v.push(PortWrite { port: IO_WAIT_PORT, value: 0 });
        v.push(PortWrite { port: PIC2_DATA, value: 2 });
        v.push(PortWrite { port: IO_WAIT_PORT, value: 0 });
        v.push(PortWrite { port: PIC1_DATA, value: 0x01 });
        v.push(PortWrite { port: IO_WAIT_PORT, value: 0 });
        v.push(PortWrite { port: PIC2_DATA, value: 0x01 });
        v.push(PortWrite { port: IO_WAIT_PORT, value: 0 });
        v.push(PortWrite { port: PIC1_DATA, value: a1 });
        v.push(PortWrite { port: PIC2_DATA, value: a2 });
        assert(icw1 == 0x11) by (bit_vector)
            requires icw1 == 0x10u8 | 0x01u8;
        v
    }
}

/// The low and high bytes of a 16-bit value, in the order they are written
/// to an 8-bit data port.
pub fn split_u16(value: u16) -> (r: (u8, u8))
    ensures
        r.0 as int == value % 256,
        r.1 as int == value / 256,
{
    let lo = (value & 0xff) as u8;
    let hi = ((value & 0xff00) >> 8) as u8;
    assert((value & 0xff) == value % 256 && ((value & 0xff00) >> 8) == value / 256) by (bit_vector);
    (lo, hi)
}

/// Channel 0, both bytes, square-wave mode, binary: the PIT mode command.
pub const PIT_MODE_COMMAND: u8 = 0x36;

/// The 8253/8254 programmable interval timer, counting time in software.
pub struct PIT {
    pub reload_value: u16,
    pub period_ns: u64,
    pub counter: u64,
}

impl PIT {
    pub fn new() -> (r: PIT)
        ensures
            r.counter == 0,
            r.period_ns == 0,
            r.reload_value == 0,
    {
        PIT { counter: 0, period_ns: 0, reload_value: 0 }
    }

    /// One timer period has elapsed.
    pub fn tick(&mut self)
        requires
            old(self).counter + old(self).period_ns <= u64::MAX,
        ensures
            final(self).counter == old(self).counter + old(self).period_ns,
            final(self).period_ns == old(self).period_ns,
            final(self).reload_value == old(self).reload_value,
    {
        self.counter = self.counter + self.period_ns;
    }

    /// Sets the period to `us` microseconds; the PIT counts at 1.193182 MHz.
    pub fn set_period_us(&mut self, us: u64)
        requires
            us * 1193182 <= u64::MAX,
        ensures
            final(self).period_ns == us * 1000,
            final(self).reload_value == ((us * 1193182) / 1000000) as u16,
            final(self).counter == old(self).counter,
    {
        self.period_ns = us * 1000;
        self.reload_value = ((us * 1193182) / 1000000) as u16;
    }

    /// The nanoseconds counted so far.
    pub fn get_counter_ns(&self) -> (r: u64)
        ensures
            r == self.counter,
    {
        self.counter
    }

    /// The port writes that restart channel 0 with the reload value, its
    /// lowest bit cleared.
    pub fn reset_writes(&self) -> (r: Vec<PortWrite>)
        ensures
            r@ == seq![
                PortWrite { port: 0x43, value: PIT_MODE_COMMAND },
                PortWrite { port: 0x40, value: ((self.reload_value & 0xfffe) % 256) as u8 },
                PortWrite { port: 0x40, value: ((self.reload_value & 0xfffe) / 256) as u8 },
            ],
    {
        let (lo, hi) = split_u16(self.reload_value & 0xfffe);
        let mut v: Vec<PortWrite> = Vec::new();
        v.push(PortWrite { port: 0x43, value: (0u8 << 6u8) | ((3u8 << 4u8) | (3u8 << 1u8) | 0u8) });
        v.push(PortWrite { port: 0x40, value: lo });
        v.push(PortWrite { port: 0x40, value: hi });
        assert((0u8 << 6u8) | ((3u8 << 4u8) | (3u8 << 1u8) | 0u8) == 0x36u8) by (bit_vector);
        v
    }
}

/// GICv2 distributor register offsets.
pub const GICD_CTLR: usize = 0;
pub const GICD_ISENABLER: usize = 0x100;
pub const GICD_ICENABLER: usize = 0x180;
pub const GICD_ICPENDR: usize = 0x280;
pub const GICD_ICFGR: usize = 0xC00;
/// GICv2 CPU interface register offsets.
pub const GICC_CTLR: usize = 0x00;
pub const GICC_PMR: usize = 0x04;
pub const GICC_IAR: usize = 0x0C;
pub const GICC_EOIR: usize = 0x10;

/// An ARM GICv2 interrupt controller, by the base addresses of its
/// distributor and CPU interface.
pub struct GICv2 {
    pub gicd_base: usize,
    pub gicc_base: usize,
}

impl GICv2 {
    pub fn new(gicd_base: usize, gicc_base: usize) -> (r: GICv2)
        ensures
            r.gicd_base == gicd_base,
            r.gicc_base == gicc_base,
    {
        GICv2 { gicd_base: gicd_base, gicc_base: gicc_base }
    }

    /// The configuration word of `interrupt` after setting its two-bit
    /// field, at twice the interrupt number modulo 16: the field is cleared,
    /// then set to 0 for level-triggered or 2 for edge-triggered.
    pub fn config_word(old_word: u32, interrupt: u32, is_level_triggered: bool) -> (r: u32)
        ensures
            r == (old_word & !(3u32 << ((interrupt % 16) * 2)))
                | ((if is_level_triggered { 0u32 } else { 2u32 }) << ((interrupt % 16) * 2)),
    {
        let bit: u32 = if is_level_triggered { 0 } else { 2 };
        let offset: u32 = (interrupt % 16) * 2;
        (old_word & !(3u32 << offset)) | (bit << offset)
    }

    /// The distributor offset of the configuration word of `interrupt`.
    pub fn config_offset(interrupt: u32) -> (r: usize)
        ensures
            r == GICD_ICFGR + 4 * (interrupt / 16),
    {
        GICD_ICFGR + 4 * ((interrupt / 16) as usize)
    }

    /// Enabling `interrupt` writes its bit to its set-enable word.
    pub fn enable_write(interrupt: u32) -> (r: RegisterWrite)
        ensures
            r == (RegisterWrite { offset: (GICD_ISENABLER + 4 * (interrupt / 32)) as usize, value: 1u32 << (interrupt % 32) }),
    {
        RegisterWrite { offset: GICD_ISENABLER + 4 * ((interrupt / 32) as usize), value: 1 << (interrupt % 32) }
    }

    /// Disabling `interrupt` writes its bit to its clear-enable word.
    pub fn disable_write(interrupt: u32) -> (r: RegisterWrite)
        ensures
            r == (RegisterWrite { offset: (GICD_ICENABLER + 4 * (interrupt / 32)) as usize, value: 1u32 << (interrupt % 32) }),
    {
        RegisterWrite { offset: GICD_ICENABLER + 4 * ((interrupt / 32) as usize), value: 1 << (interrupt % 32) }
    }

    /// The distributor offset of pending word `i`.
    pub fn pending_offset(i: u32) -> (r: usize)
        requires
            GICD_ICPENDR + 4 * i <= usize::MAX,
        ensures
            r == GICD_ICPENDR + 4 * i,
    {
        GICD_ICPENDR + 4 * (i as usize)
    }

    /// The interrupt named by an interrupt-acknowledge value; 1023 means none.
    pub fn decode_iar(iar: u32) -> (r: Option<u32>)
        ensures
            (iar & 0x3ff) == 1023 ==> r is None,
            (iar & 0x3ff) != 1023 ==> r == Some(iar & 0x3ff),
    {
        let interrupt_num = iar & 0x3ff;
        if interrupt_num == 1023 {
            None
        } else {
            Some(interrupt_num)
        }
    }
}

/// The PL011 baud-rate divisor (integer and fractional parts); fixed for
/// the 115200 baud, 48 MHz configuration.
pub fn calculate_baud(_baud: u32, _uart_clock: u32) -> (r: (u32, u32))
    ensures
        r == (26u32, 3u32),
{
    (26, 3)
}

/// PL011 register offsets.
pub const UART_DR: usize = 0x00;
pub const UART_FR: usize = 0x18;
pub const UART_IBRD: usize = 0x24;
pub const UART_FBRD: usize = 0x28;
pub const UART_LCRH: usize = 0x2c;
pub const UART_CR: usize = 0x30;
pub const UART_ICR: usize = 0x44;
/// Flag register: transmit FIFO full.
pub const FR_TXFULL: u32 = 0x20;
/// Flag register: receive FIFO empty.
pub const FR_RXEMPTY: u32 = 0x10;

/// An ARM PL011 UART.
pub struct Pl011Uart {
    pub base_address: usize,
    pub baud: u32,
}

impl Pl011Uart {
    /// A UART whose registers are at `base_address`.
    pub fn new(base_address: usize, baud: u32) -> (r: Pl011Uart)
        ensures
            r.base_address == base_address,
            r.baud == baud,
    {
        Pl011Uart { base_address, baud }
    }

    /// The register writes that initialise the UART: disable it, clear
    /// interrupts, set the baud divisor, select 8N1 with FIFOs, enable
    /// transmit and receive.
    pub fn init_writes(&self, uart_clock: u32) -> (r: Vec<RegisterWrite>)
        ensures
            r@ == seq![
                RegisterWrite { offset: UART_CR, value: 0 },
                RegisterWrite { offset: UART_ICR, value: 0x7ff },
                RegisterWrite { offset: UART_IBRD, value: 26 },
                RegisterWrite { offset: UART_FBRD, value: 3 },
                RegisterWrite { offset: UART_LCRH, value: 0x60 },
                RegisterWrite { offset: UART_CR, value: 0x301 },
            ],
    {
        let (whole, frac) = calculate_baud(self.baud, uart_clock);
        let mut v: Vec<RegisterWrite> = Vec::new();
        v.push(RegisterWrite { offset: UART_CR, value: 0 });
        v.push(RegisterWrite { offset: UART_ICR, value: 0x7ff });
        v.push(RegisterWrite { offset: UART_IBRD, value: whole });
        v.push(RegisterWrite { offset: UART_FBRD, value: frac });
        v.push(RegisterWrite { offset: UART_LCRH, value: 0b11 << 5 });
        v.push(RegisterWrite { offset: UART_CR, value: 0x301 });
        assert((0b11u32 << 5u32) == 0x60) by (bit_vector);
        v
    }

    /// Whether a flag register value allows sending: the transmit FIFO is
    /// not full.
    pub fn can_send(flags: u32) -> (r: bool)
        ensures
            r == (flags & FR_TXFULL == 0),
    {
        (flags & FR_TXFULL) == 0
    }

    /// Whether a flag register value allows receiving: the receive FIFO is
    /// not empty.
    pub fn can_receive(flags: u32) -> (r: bool)
        ensures
            r == (flags & FR_RXEMPTY == 0),
    {
        (flags & FR_RXEMPTY) == 0
    }

    /// The write that sends `byte`: the data register.
    pub fn data_write(byte: u8) -> (r: RegisterWrite)
        ensures
            r == (RegisterWrite { offset: UART_DR, value: byte as u32 }),
    {
        RegisterWrite { offset: UART_DR, value: byte as u32 }
    }

    /// The data register writes that send every character of `a`, truncated
    /// to a byte, in order (each after the transmit FIFO has room).
    pub fn write_string(a: &str) -> (r: Vec<RegisterWrite>)
        ensures
            r@ == serial_bytes_spec(a@).map_values(|b: u8| RegisterWrite { offset: UART_DR, value: b as u32 }),
    {
        let bytes = serial_bytes(a);
        Self::write_bytes(bytes.as_slice())
    }

    /// The data register writes that send every byte of `a`, in order.
    pub fn write_bytes(a: &[u8]) -> (r: Vec<RegisterWrite>)
        ensures
            r@ == a@.map_values(|b: u8| RegisterWrite { offset: UART_DR, value: b as u32 }),
    {
        let mut v: Vec<RegisterWrite> = Vec::new();
        let mut i: usize = 0;
        while i < a.len()
            invariant
                i <= a@.len(),
                v@ == a@.take(i as int).map_values(|b: u8| RegisterWrite { offset: UART_DR, value: b as u32 }),
            decreases a.len() - i,
        {
            v.push(Self::data_write(a[i]));
            assert(a@.take(i as int + 1) =~= a@.take(i as int).push(a@[i as int]));
            i = i + 1;
        }
        assert(a@.take(a@.len() as int) =~= a@);
        v
    }
}

/// The port written to give the bus time between I/O commands: one write of 0.
pub fn io_wait() -> (r: PortWrite)
    ensures
        r == (PortWrite { port: IO_WAIT_PORT, value: 0 }),
{
    PortWrite { port: IO_WAIT_PORT, value: 0 }
}

/// The programmable interval timer as the kernel first drove it: every
/// operation does nothing and the counter reads zero.
pub struct PITTimer {}

impl PITTimer {
    pub fn new() -> (r: PITTimer) {
        PITTimer {}
    }
}

impl Timer for PITTimer {
    fn init(&mut self)
        ensures
            *final(self) == *old(self),
    {
    }

    fn tick(&mut self)
        ensures
            *final(self) == *old(self),
    {
    }

    fn set_period_us(&mut self, _n: u64)
        ensures
            *final(self) == *old(self),
    {
    }

    fn reset_timer(&mut self)
        ensures
            *final(self) == *old(self),
    {
    }

    fn enable_timer(&mut self)
        ensures
            *final(self) == *old(self),
    {
    }

    fn get_counter_ns(&self) -> (r: u64)
        ensures
            r == 0,
    {
        0
    }
}

/// A PC serial port (16550 UART) at an I/O port base.
pub struct COMPort {
    pub port_base: u16,
}

/// The port that receives the bytes sent: the first serial port's data
/// register, whatever the base.
pub const COM1_DATA: u16 = 0x3f8;

impl COMPort {
    /// A serial port at `port_base`.
    pub fn new(port_base: u16) -> (r: COMPort)
        ensures
            r.port_base == port_base,
    {
        COMPort { port_base }
    }

    /// The write that sets 8 data bits, no parity, one stop bit in the line
    /// control register.
    pub fn init_write(&self) -> (r: PortWrite)
        requires
            self.port_base + 3 <= u16::MAX,
        ensures
            r == (PortWrite { port: (self.port_base + 3) as u16, value: 3 }),
    {
        PortWrite { port: self.port_base + 3, value: 3 }
    }

    /// The line status register, polled before each byte.
    pub fn line_status_port(&self) -> (r: u16)
        requires
            self.port_base + 5 <= u16::MAX,
        ensures
            r == self.port_base + 5,
    {
        self.port_base + 5
    }

    /// Whether a line status allows sending: the transmit holding register
    /// is empty (bit 5).
    pub fn can_send(line_status: u8) -> (r: bool)
        ensures
            r == (line_status & 0x20 == 0x20),
    {
        assert((1u8 << 5u8) == 0x20) by (bit_vector);
        (line_status & (1 << 5)) == (1 << 5)
    }

    /// The write that sends `byte`.
    pub fn data_write(byte: u8) -> (r: PortWrite)
        ensures
            r == (PortWrite { port: COM1_DATA, value: byte }),
    {
        PortWrite { port: COM1_DATA, value: byte }
    }

    /// The data writes that send every character of `a`, truncated to a
    /// byte, in order (each after the line status allows sending).
    pub fn write_string(a: &str) -> (r: Vec<PortWrite>)
        ensures
            r@ == serial_bytes_spec(a@).map_values(|b: u8| PortWrite { port: COM1_DATA, value: b }),
    {
        let bytes = serial_bytes(a);
        Self::write_bytes(bytes.as_slice())
    }

    /// The data writes that send every byte of `a`, in order.
    pub fn write_bytes(a: &[u8]) -> (r: Vec<PortWrite>)
        ensures
            r@ == a@.map_values(|b: u8| PortWrite { port: COM1_DATA, value: b }),
    {
        let mut v: Vec<PortWrite> = Vec::new();
        let mut i: usize = 0;
        while i < a.len()
            invariant
                i <= a@.len(),
                v@ == a@.take(i as int).map_values(|b: u8| PortWrite { port: COM1_DATA, value: b }),
            decreases a.len() - i,
        {
            v.push(Self::data_write(a[i]));
            assert(a@.take(i as int + 1) =~= a@.take(i as int).push(a@[i as int]));
            i = i + 1;
        }
        assert(a@.take(a@.len() as int) =~= a@);
        v
    }
}

/// Formatted text for a serial port: each string goes out through
/// `write_string`.
pub struct Writer<'a, T: SerialPort> {
    pub uart: &'a mut T,
}

impl<'a, T: SerialPort> Writer<'a, T> {
    /// Sends `s`; sending cannot fail.
    pub fn write_str(&mut self, s: &str) -> (r: Result<(), ()>)
        ensures
            r is Ok,
            exists|trace: Seq<T>, calls: Seq<&mut T>| #![trigger trace.len(), calls.len()] {
                &&& trace.len() == serial_bytes_spec(s@).len() + 1
                &&& calls.len() == serial_bytes_spec(s@).len()
                &&& trace[0] == *old(self).uart
                &&& trace.last() == *final(self).uart
                &&& forall|k: int| 0 <= k < serial_bytes_spec(s@).len() ==> {
                    &&& mut_ref_current(#[trigger] calls[k]) == trace[k]
                    &&& call_ensures(T::write_byte, (calls[k], serial_bytes_spec(s@)[k]), ())
                }
            },
    {
        self.uart.write_string(s);
        Ok(())
    }
}

/// The AArch64 generic timer, read through its system registers.
pub struct ArchTimer {}

impl ArchTimer {
    pub fn new() -> (r: ArchTimer) {
        ArchTimer {}
    }

    /// The timer value for a period of `us` microseconds at counter
    /// frequency `freq`: whole ticks per microsecond times `us`.
    pub fn period_ticks(freq: u64, us: u64) -> (r: u64)
        requires
            (freq / 1000000u64) * us <= u64::MAX,
        ensures
            r == (freq / 1000000u64) * us,
    {
        (freq / 1000000) * us
    }

    /// The nanoseconds that `count` ticks at frequency `freq` stand for:
    /// whole nanoseconds per tick times `count`.
    pub fn counter_ns(count: u64, freq: u64) -> (r: u64)
        requires
            freq > 0,
            count * (1000000000u64 / freq) <= u64::MAX,
        ensures
            r == count * (1000000000u64 / freq),
    {
        let ns_per_tick = 1000000000 / freq;
        count * ns_per_tick
    }
}

} // verus!
