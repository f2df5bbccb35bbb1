//! Physical memory map and access dispatch (QEMU `virt`-compatible layout).
use vstd::prelude::*;

use crate::devices::clint::Clint;
use crate::devices::framebuffer_blitter::{self, BlitterState, FramebufferBlitter};
use crate::devices::goldfish_rtc::GoldfishRtc;
use crate::devices::plic::{law_operations_keep_order, Plic};
use crate::devices::simple_irq::SimpleInterruptGenerator;
use crate::devices::uart::{Uart, UartState};
use crate::devices::virtio_blk::{self, BlockState, VirtioBlock};
use crate::devices::virtio_console::{self, ConsoleState, VirtioConsole};
use crate::devices::virtio_input::{self, InputKind, InputState, VirtioInput};
use crate::devices::virtio_net::{self, NetState, VirtioNet};
use crate::devices::virtio_rng::{self, EntropyState, VirtioEntropy};
use crate::devices::virtqueue::writes_per_drain;
use crate::le::{le_bytes, lemma_le_bytes_len};
use crate::ram::{access_size, law_a_write_is_counted, lemma_follows, paged, Ram, RamState};

verus! {

pub const TEST_BASE: u64 = 0x10_0000;

pub const TEST_SIZE: u64 = 0x1000;

pub const CLINT_BASE: u64 = 0x200_0000;

pub const CLINT_SIZE: u64 = 0x10000;

pub const PLIC_BASE: u64 = 0xC00_0000;

pub const PLIC_SIZE: u64 = 0x60_0000;

pub const UART_BASE: u64 = 0x1000_0000;

pub const UART_SIZE: u64 = 0x100;

pub const RTC_BASE: u64 = 0x10_1000;

pub const RTC_SIZE: u64 = 0x1000;

pub const VIRTIO_BASE: u64 = 0x1000_1000;

pub const VIRTIO_SIZE: u64 = 0x1000;

pub const VIRTIO_RNG_BASE: u64 = 0x1000_2000;

pub const VIRTIO_NET_BASE: u64 = 0x1000_3000;

pub const VIRTIO_KBD_BASE: u64 = 0x1000_4000;

pub const VIRTIO_TABLET_BASE: u64 = 0x1000_5000;

pub const VIRTIO_CONSOLE_BASE: u64 = 0x1000_7000;

pub const FB_BLITTER_BASE: u64 = 0x1000_6000;

pub const FB_BLITTER_SIZE: u64 = 0x2c;

pub const SIMPLE_IRQ_BASE: u64 = 0x1001_0000;

pub const SIMPLE_IRQ_SIZE: u64 = 0x20;

pub const DRAM_BASE: u64 = 0x8000_0000;

/// UART interrupt line on the PLIC (matches QEMU virt).
pub const UART_IRQ: u32 = 10;

/// VirtIO block interrupt line on the PLIC (matches QEMU virt and xv6).
pub const VIRTIO_IRQ: u32 = 1;

/// VirtIO entropy interrupt line on the PLIC (second QEMU-virt MMIO slot).
pub const VIRTIO_RNG_IRQ: u32 = 2;

/// VirtIO network interrupt line on the PLIC (third QEMU-virt MMIO slot).
pub const VIRTIO_NET_IRQ: u32 = 3;

/// VirtIO input keyboard interrupt line (fourth QEMU-virt MMIO slot).
pub const VIRTIO_KBD_IRQ: u32 = 4;

/// VirtIO input tablet interrupt line (fifth QEMU-virt MMIO slot).
pub const VIRTIO_TABLET_IRQ: u32 = 5;

pub const VIRTIO_CONSOLE_IRQ: u32 = 6;

/// Goldfish RTC interrupt line on the PLIC (matches QEMU virt).
pub const RTC_IRQ: u32 = 11;

pub struct Bus {
    pub ram: Ram,
    pub clint: Clint,
    pub plic: Plic,
    pub uart: Uart,
    pub rtc: GoldfishRtc,
    pub virtio_blk: VirtioBlock,
    pub virtio_console: VirtioConsole,
    pub virtio_rng: VirtioEntropy,
    pub virtio_net: VirtioNet,
    /// Keyboard and absolute-pointer input.
    pub virtio_kbd: VirtioInput,
    pub virtio_tablet: VirtioInput,
    pub simple_irq: SimpleInterruptGenerator,
    pub framebuffer_blitter: FramebufferBlitter,
    /// Set when the guest writes the test-finisher device: Some(exit_code).
    pub shutdown: Option<u32>,
    /// Set on a reset request.
    pub reset_requested: bool,
    pub device_irqs_dirty: bool,
}

/// What a [`Bus`] and everything on it holds.
#[verifier::ext_equal]
pub struct BusState {
    pub ram: RamState,
    pub clint: Clint,
    pub plic: Plic,
    pub uart: UartState,
    pub rtc: GoldfishRtc,
    pub virtio_blk: BlockState,
    pub virtio_console: ConsoleState,
    pub virtio_rng: EntropyState,
    pub virtio_net: NetState,
    pub virtio_kbd: InputState,
    pub virtio_tablet: InputState,
    pub simple_irq: SimpleInterruptGenerator,
    pub framebuffer_blitter: BlitterState,
    pub shutdown: Option<u32>,
    pub reset_requested: bool,
    pub device_irqs_dirty: bool,
}

impl View for Bus {
    type V = BusState;

    open spec fn view(&self) -> BusState {
        BusState {
            ram: self.ram@,
            clint: self.clint,
            plic: self.plic,
            uart: self.uart@,
            rtc: self.rtc,
            virtio_blk: self.virtio_blk@,
            virtio_console: self.virtio_console@,
            virtio_rng: self.virtio_rng@,
            virtio_net: self.virtio_net@,
            virtio_kbd: self.virtio_kbd@,
            virtio_tablet: self.virtio_tablet@,
            simple_irq: self.simple_irq,
            framebuffer_blitter: self.framebuffer_blitter@,
            shutdown: self.shutdown,
            reset_requested: self.reset_requested,
            device_irqs_dirty: self.device_irqs_dirty,
        }
    }
}

/// The device window an address below DRAM falls in.
pub enum Region {
    Console,
    Clint,
    Plic,
    Uart,
    Rtc,
    Block,
    Rng,
    Net,
    Keyboard,
    Tablet,
    SimpleIrq,
    Blitter,
    Test,
    Unmapped,
}

/// The first address of a device window.
pub open spec fn base_of(region: Region) -> u64 {
    match region {
        Region::Console => VIRTIO_CONSOLE_BASE,
        Region::Clint => CLINT_BASE,
        Region::Plic => PLIC_BASE,
        Region::Uart => UART_BASE,
        Region::Rtc => RTC_BASE,
        Region::Block => VIRTIO_BASE,
        Region::Rng => VIRTIO_RNG_BASE,
        Region::Net => VIRTIO_NET_BASE,
        Region::Keyboard => VIRTIO_KBD_BASE,
        Region::Tablet => VIRTIO_TABLET_BASE,
        Region::SimpleIrq => SIMPLE_IRQ_BASE,
        Region::Blitter => FB_BLITTER_BASE,
        Region::Test => TEST_BASE,
        Region::Unmapped => 0,
    }
}

/// The length of a device window.
pub open spec fn size_of_region(region: Region) -> u64 {
    match region {
        Region::Console => VIRTIO_SIZE,
        Region::Clint => CLINT_SIZE,
        Region::Plic => PLIC_SIZE,
        Region::Uart => UART_SIZE,
        Region::Rtc => RTC_SIZE,
        Region::Block => VIRTIO_SIZE,
        Region::Rng => VIRTIO_SIZE,
        Region::Net => VIRTIO_SIZE,
        Region::Keyboard => VIRTIO_SIZE,
        Region::Tablet => VIRTIO_SIZE,
        Region::SimpleIrq => SIMPLE_IRQ_SIZE,
        Region::Blitter => FB_BLITTER_SIZE,
        Region::Test => TEST_SIZE,
        Region::Unmapped => 0,
    }
}

/// Whether an address range lies inside a device window.
pub open spec fn inside(region: Region, addr: int, size: int) -> bool {
    base_of(region) <= addr && addr + size <= base_of(region) + size_of_region(region)
}

pub open spec fn region_of(addr: u64) -> Region {
    if inside(Region::Console, addr as int, 1) {
        Region::Console
    } else if inside(Region::Clint, addr as int, 1) {
        Region::Clint
    } else if inside(Region::Plic, addr as int, 1) {
        Region::Plic
    } else if inside(Region::Uart, addr as int, 1) {
        Region::Uart
    } else if inside(Region::Rtc, addr as int, 1) {
        Region::Rtc
    } else if inside(Region::Block, addr as int, 1) {
        Region::Block
    } else if inside(Region::Rng, addr as int, 1) {
        Region::Rng
    } else if inside(Region::Net, addr as int, 1) {
        Region::Net
    } else if inside(Region::Keyboard, addr as int, 1) {
        Region::Keyboard
    } else if inside(Region::Tablet, addr as int, 1) {
        Region::Tablet
    } else if inside(Region::SimpleIrq, addr as int, 1) {
        Region::SimpleIrq
    } else if inside(Region::Blitter, addr as int, 1) {
        Region::Blitter
    } else if inside(Region::Test, addr as int, 1) {
        Region::Test
    } else {
        Region::Unmapped
    }
}

/// Device windows do not overlap, and none reaches DRAM: an address inside a
/// window falls in that window.
pub proof fn law_regions_disjoint(region: Region, addr: u64)
    requires
        region !is Unmapped,
        inside(region, addr as int, 1),
    ensures
        region_of(addr) == region,
        addr < DRAM_BASE,
{
}

impl BusState {
    /// The same bus, its devices' interrupt lines to be sampled again.
    pub open spec fn with_irqs_dirty(self) -> BusState {
        BusState { device_irqs_dirty: true, ..self }
    }

    /// Whether the range is backed by ordinary RAM.
    pub open spec fn main_memory(self, addr: u64, size: int) -> bool {
        DRAM_BASE <= addr && addr - DRAM_BASE + size <= self.ram.bytes.len()
    }

    /// Whether the range belongs to a writable platform region.
    pub open spec fn writable(self, addr: u64, size: int) -> bool {
        if addr + size > u64::MAX {
            false
        } else if addr >= DRAM_BASE {
            self.main_memory(addr, size)
        } else {
            ||| inside(Region::Console, addr as int, size)
            ||| inside(Region::Clint, addr as int, size)
            ||| inside(Region::Plic, addr as int, size)
            ||| inside(Region::Uart, addr as int, size)
            ||| inside(Region::Rtc, addr as int, size)
            ||| inside(Region::Block, addr as int, size)
            ||| inside(Region::Rng, addr as int, size)
            ||| inside(Region::Net, addr as int, size)
            ||| inside(Region::Keyboard, addr as int, size)
            ||| inside(Region::Tablet, addr as int, size)
            ||| inside(Region::SimpleIrq, addr as int, size)
            ||| inside(Region::Blitter, addr as int, size)
            ||| inside(Region::Test, addr as int, size)
        }
    }

    /// What a read returns; `Err` is an access fault.
    pub open spec fn seen(self, addr: u64, size: u8) -> Result<u64, ()> {
        if addr >= DRAM_BASE {
            self.ram.load((addr - DRAM_BASE) as u64, size)
        } else {
            let region = region_of(addr);
            let offset = (addr - base_of(region)) as u64;
            match region {
                Region::Console => self.virtio_console.seen(offset, size),
                Region::Clint => Ok(self.clint.seen(offset, size)),
                Region::Plic => Ok(self.plic.seen(offset) as u64),
                Region::Uart => Ok(self.uart.seen(offset) as u64),
                Region::Rtc => if size != 4 {
                    Err(())
                } else {
                    match self.rtc.seen(offset) {
                        Some(v) => Ok(v),
                        None => Err(()),
                    }
                },
                Region::Block => if size == 4 || size == 8 {
                    Ok(self.virtio_blk.seen(offset, size))
                } else {
                    Err(())
                },
                Region::Rng => self.virtio_rng.seen(offset, size),
                Region::Net => self.virtio_net.seen(offset, size),
                Region::Keyboard => self.virtio_kbd.seen(offset, size),
                Region::Tablet => self.virtio_tablet.seen(offset, size),
                Region::SimpleIrq => self.simple_irq.seen(offset),
                Region::Blitter => self.framebuffer_blitter.seen(offset, size),
                Region::Test => Ok(0),
                Region::Unmapped => Err(()),
            }
        }
    }

    /// The bus after a read. Device reads can acknowledge interrupts (UART
    /// IIR, PLIC claim).
    pub open spec fn after_read(self, addr: u64) -> BusState {
        if addr >= DRAM_BASE {
            self
        } else {
            let region = region_of(addr);
            let offset = (addr - base_of(region)) as u64;
            let s = self.with_irqs_dirty();
            match region {
                Region::Plic => BusState { plic: self.plic.after_read(offset), ..s },
                Region::Uart => BusState { uart: self.uart.after_read(offset), ..s },
                _ => s,
            }
        }
    }

    /// The bus after the test finisher is written: 0x5555 pass,
    /// 0x3333|code<<16 fail, 0x7777 reset.
    pub open spec fn finished(self, val: u64) -> BusState {
        let word = val as u32;
        if word % 0x1_0000 == 0x5555 {
            BusState { shutdown: Some(0), ..self }
        } else if word % 0x1_0000 == 0x3333 {
            BusState { shutdown: Some((word / 0x1_0000) as u32), ..self }
        } else if word % 0x1_0000 == 0x7777 {
            BusState { reset_requested: true, ..self }
        } else {
            self
        }
    }

    /// Whether a write is accepted; otherwise it is an access fault.
    pub open spec fn accepts(self, addr: u64, val: u64, size: u8) -> bool {
        if addr >= DRAM_BASE {
            access_size(size) && self.main_memory(addr, size as int)
        } else {
            let region = region_of(addr);
            let offset = (addr - base_of(region)) as u64;
            match region {
                Region::Console | Region::Block | Region::Rng | Region::Net => size == 4,
                Region::Keyboard | Region::Tablet => InputState::accepts(offset, size),
                Region::Clint | Region::Plic | Region::Uart | Region::Test => true,
                Region::Rtc => size == 4 && self.rtc.written(offset, val) is Some,
                Region::SimpleIrq => true,
                Region::Blitter => BlitterState::accepts(offset, val, size),
                Region::Unmapped => false,
            }
        }
    }

    /// What a write may do. Only a virtio queue notification leaves anything
    /// open, as the storage behind the block device may answer as it likes.
    pub open spec fn may_write(self, addr: u64, val: u64, size: u8, post: BusState) -> bool {
        if addr >= DRAM_BASE {
            post == (if self.accepts(addr, val, size) {
                BusState { ram: self.ram.stored((addr - DRAM_BASE) as u64, val, size), ..self }
            } else {
                self
            })
        } else {
            let region = region_of(addr);
            let offset = (addr - base_of(region)) as u64;
            let s = self.with_irqs_dirty();
            match region {
                Region::Console => self.virtio_console.may_write(
                    offset,
                    val,
                    size,
                    self.ram,
                    post.virtio_console,
                    post.ram,
                ) && post == (BusState {
                    virtio_console: post.virtio_console,
                    ram: post.ram,
                    ..s
                }),
                Region::Clint => post == (BusState {
                    clint: self.clint.written(offset, val, size),
                    ..s
                }),
                Region::Plic => post == (BusState {
                    plic: self.plic.written(offset, val as u32),
                    ..s
                }),
                Region::Uart => post == (BusState {
                    uart: self.uart.written(offset, val as u8),
                    ..s
                }),
                Region::Rtc => post == (if self.accepts(addr, val, size) {
                    BusState { rtc: self.rtc.written(offset, val)->0, ..s }
                } else {
                    s
                }),
                Region::Block => self.virtio_blk.may_write(
                    offset,
                    val as u32,
                    size,
                    self.ram,
                    post.virtio_blk,
                    post.ram,
                ) && post == (BusState { virtio_blk: post.virtio_blk, ram: post.ram, ..s }),
                Region::Rng => self.virtio_rng.may_write(
                    offset,
                    val as u32,
                    size,
                    self.ram,
                    post.virtio_rng,
                    post.ram,
                ) && post == (BusState { virtio_rng: post.virtio_rng, ram: post.ram, ..s }),
                Region::Net => self.virtio_net.may_write(
                    offset,
                    val as u32,
                    size,
                    self.ram,
                    post.virtio_net,
                    post.ram,
                ) && post == (BusState { virtio_net: post.virtio_net, ram: post.ram, ..s }),
                Region::Keyboard => self.virtio_kbd.may_write(
                    offset,
                    val,
                    size,
                    self.ram,
                    post.virtio_kbd,
                    post.ram,
                ) && post == (BusState { virtio_kbd: post.virtio_kbd, ram: post.ram, ..s }),
                Region::Tablet => self.virtio_tablet.may_write(
                    offset,
                    val,
                    size,
                    self.ram,
                    post.virtio_tablet,
                    post.ram,
                ) && post == (BusState { virtio_tablet: post.virtio_tablet, ram: post.ram, ..s }),
                Region::SimpleIrq => post == (BusState {
                    simple_irq: self.simple_irq.written(offset, val, size),
                    ..s
                }),
                Region::Blitter => post == (if self.accepts(addr, val, size) {
                    let (blitter, ram) = self.framebuffer_blitter.written(offset, val, self.ram);
                    BusState { framebuffer_blitter: blitter, ram, ..s }
                } else {
                    s
                }),
                Region::Test => post == s.finished(val),
                Region::Unmapped => post == s,
            }
        }
    }
}

/// The window an address below DRAM falls in.
fn region(addr: u64) -> (r: Region)
    ensures
        r == region_of(addr),
{
    if VIRTIO_CONSOLE_BASE <= addr && addr < VIRTIO_CONSOLE_BASE + VIRTIO_SIZE {
        Region::Console
    } else if CLINT_BASE <= addr && addr < CLINT_BASE + CLINT_SIZE {
        Region::Clint
    } else if PLIC_BASE <= addr && addr < PLIC_BASE + PLIC_SIZE {
        Region::Plic
    } else if UART_BASE <= addr && addr < UART_BASE + UART_SIZE {
        Region::Uart
    } else if RTC_BASE <= addr && addr < RTC_BASE + RTC_SIZE {
        Region::Rtc
    } else if VIRTIO_BASE <= addr && addr < VIRTIO_BASE + VIRTIO_SIZE {
        Region::Block
    } else if VIRTIO_RNG_BASE <= addr && addr < VIRTIO_RNG_BASE + VIRTIO_SIZE {
        Region::Rng
    } else if VIRTIO_NET_BASE <= addr && addr < VIRTIO_NET_BASE + VIRTIO_SIZE {
        Region::Net
    } else if VIRTIO_KBD_BASE <= addr && addr < VIRTIO_KBD_BASE + VIRTIO_SIZE {
        Region::Keyboard
    } else if VIRTIO_TABLET_BASE <= addr && addr < VIRTIO_TABLET_BASE + VIRTIO_SIZE {
        Region::Tablet
    } else if SIMPLE_IRQ_BASE <= addr && addr < SIMPLE_IRQ_BASE + SIMPLE_IRQ_SIZE {
        Region::SimpleIrq
    } else if FB_BLITTER_BASE <= addr && addr < FB_BLITTER_BASE + FB_BLITTER_SIZE {
        Region::Blitter
    } else if TEST_BASE <= addr && addr < TEST_BASE + TEST_SIZE {
        Region::Test
    } else {
        Region::Unmapped
    }
}

impl Bus {
    pub open spec fn wf(&self) -> bool {
        &&& self.ram.wf()
        &&& self.plic.wf()
        &&& self.uart.wf()
        &&& self.virtio_blk.wf()
        &&& self.virtio_console.wf()
        &&& self.virtio_rng.wf()
        &&& self.virtio_net.wf()
        &&& self.virtio_kbd.wf()
        &&& self.virtio_tablet.wf()
        &&& self.simple_irq.wf()
        &&& self.framebuffer_blitter@.wf()
    }

    pub fn new(ram_size: usize) -> (r: Self)
        requires
            ram_size <= isize::MAX,
        ensures
            r.wf(),
            r@.ram.bytes == Seq::new(ram_size as nat, |i: int| 0u8),
            r@.ram.generations == Seq::new(r@.ram.page_count(), |i: int| 0u64),
            r@.virtio_kbd == InputState::fresh(InputKind::Keyboard),
            r@.virtio_tablet == InputState::fresh(InputKind::Tablet),
            r@.virtio_console == ConsoleState::fresh(),
            r@.framebuffer_blitter == BlitterState::fresh(),
            r@.clint == Clint::reset(),
            r@.plic.at_reset(),
            r@.virtio_blk == BlockState::fresh(),
            r@.virtio_rng == EntropyState::fresh(),
            r@.virtio_net == NetState::fresh(),
            r@.simple_irq.pending == 0,
            r@.uart == UartState::reset(),
            r@.rtc == GoldfishRtc::reset(),
            r@.shutdown is None,
            !r@.reset_requested,
            r@.device_irqs_dirty,
    {
        Bus {
            ram: Ram::new(ram_size),
            clint: Clint::new(),
            plic: Plic::new(),
            uart: Uart::new(),
            rtc: GoldfishRtc::new(),
            virtio_blk: VirtioBlock::new(),
            virtio_console: VirtioConsole::default(),
            virtio_rng: VirtioEntropy::new(),
            virtio_net: VirtioNet::new(),
            virtio_kbd: VirtioInput::new(InputKind::Keyboard),
            virtio_tablet: VirtioInput::new(InputKind::Tablet),
            simple_irq: SimpleInterruptGenerator::new(),
            framebuffer_blitter: FramebufferBlitter::default(),
            shutdown: None,
            reset_requested: false,
            device_irqs_dirty: true,
        }
    }

    /// Whether the complete physical range is backed by ordinary RAM.
    ///
    /// Page-table walks use this PMA check before touching a PTE so a crafted
    /// table pointer cannot turn address translation into an MMIO access.
    pub fn is_main_memory(&self, addr: u64, size: u8) -> (r: bool)
        requires
            self.wf(),
        ensures
            r == self@.main_memory(addr, size as int),
    {
        if addr < DRAM_BASE {
            return false;
        }
        match (addr - DRAM_BASE).checked_add(size as u64) {
            Some(end) => end <= self.ram.size(),
            None => false,
        }
    }

    /// Whether a physical range belongs to a writable platform region.
    ///
    /// SC uses this non-mutating PMA check even when its reservation fails;
    /// the instruction may fail spuriously, but it must still raise access
    /// faults for addresses that cannot be written.
    pub fn write_accessible(&self, addr: u64, size: u8) -> (r: bool)
        requires
            self.wf(),
        ensures
            r == self@.writable(addr, size as int),
    {
        let end: u64 = match addr.checked_add(size as u64) {
            Some(e) => e,
            None => return false,
        };
        if addr >= DRAM_BASE {
            return end <= DRAM_BASE + self.ram.size();
        }
        within(addr, end, VIRTIO_CONSOLE_BASE, VIRTIO_SIZE)
            || within(addr, end, CLINT_BASE, CLINT_SIZE)
            || within(addr, end, PLIC_BASE, PLIC_SIZE)
            || within(addr, end, UART_BASE, UART_SIZE)
            || within(addr, end, RTC_BASE, RTC_SIZE)
            || within(addr, end, VIRTIO_BASE, VIRTIO_SIZE)
            || within(addr, end, VIRTIO_RNG_BASE, VIRTIO_SIZE)
            || within(addr, end, VIRTIO_NET_BASE, VIRTIO_SIZE)
            || within(addr, end, VIRTIO_KBD_BASE, VIRTIO_SIZE)
            || within(addr, end, VIRTIO_TABLET_BASE, VIRTIO_SIZE)
            || within(addr, end, SIMPLE_IRQ_BASE, SIMPLE_IRQ_SIZE)
            || within(addr, end, FB_BLITTER_BASE, FB_BLITTER_SIZE)
            || within(addr, end, TEST_BASE, TEST_SIZE)
    }

    /// Little-endian read of 1/2/4/8 bytes at physical address `addr`.
    /// `Err(())` = access fault (caller maps to the right exception kind).
    pub fn read(&mut self, addr: u64, size: u8) -> (r: Result<u64, ()>)
        requires
            old(self).wf(),
        ensures
            final(self).wf(),
            r == old(self)@.seen(addr, size),
            final(self)@ == old(self)@.after_read(addr),
    {
        if addr >= DRAM_BASE {
            return self.ram.read(addr - DRAM_BASE, size);
        }
        self.read_mmio(addr, size)
    }

    fn read_mmio(&mut self, addr: u64, size: u8) -> (r: Result<u64, ()>)
        requires
            old(self).wf(),
            addr < DRAM_BASE,
        ensures
            final(self).wf(),
            r == old(self)@.seen(addr, size),
            final(self)@ == old(self)@.after_read(addr),
    {
        // Reads can acknowledge interrupts (UART IIR, PLIC claim).
        self.device_irqs_dirty = true;
        match region(addr) {
            Region::Console => self.virtio_console.read(addr - VIRTIO_CONSOLE_BASE, size),
            Region::Clint => self.clint.read(addr - CLINT_BASE, size),
            Region::Plic => self.plic.read(addr - PLIC_BASE, size),
            Region::Uart => self.uart.read(addr - UART_BASE, size),
            Region::Rtc => self.rtc.read(addr - RTC_BASE, size),
            Region::Block => self.virtio_blk.read(addr - VIRTIO_BASE, size),
            Region::Rng => self.virtio_rng.read(addr - VIRTIO_RNG_BASE, size),
            Region::Net => self.virtio_net.read(addr - VIRTIO_NET_BASE, size),
            Region::Keyboard => self.virtio_kbd.read(addr - VIRTIO_KBD_BASE, size),
            Region::Tablet => self.virtio_tablet.read(addr - VIRTIO_TABLET_BASE, size),
            Region::SimpleIrq => self.simple_irq.read(addr - SIMPLE_IRQ_BASE, size),
            Region::Blitter => self.framebuffer_blitter.read(addr - FB_BLITTER_BASE, size),
            Region::Test => Ok(0),
            Region::Unmapped => Err(()),
        }
    }

    pub fn write(&mut self, addr: u64, val: u64, size: u8) -> (r: Result<(), ()>)
        requires
            old(self).wf(),
        ensures
            final(self).wf(),
            final(self)@.ram.bytes.len() == old(self)@.ram.bytes.len(),
            r is Ok <==> old(self)@.accepts(addr, val, size),
            old(self)@.may_write(addr, val, size, final(self)@),
    {
        if addr >= DRAM_BASE {
            proof {
                crate::le::lemma_le_bytes_len(val as nat, size as nat);
            }
            return self.ram.write(addr - DRAM_BASE, val, size);
        }
        self.write_mmio(addr, val, size)
    }

    fn write_mmio(&mut self, addr: u64, val: u64, size: u8) -> (r: Result<(), ()>)
        requires
            old(self).wf(),
            addr < DRAM_BASE,
        ensures
            final(self).wf(),
            final(self)@.ram.bytes.len() == old(self)@.ram.bytes.len(),
            r is Ok <==> old(self)@.accepts(addr, val, size),
            old(self)@.may_write(addr, val, size, final(self)@),
    {
        self.device_irqs_dirty = true;
        match region(addr) {
            Region::Console => self.virtio_console.write(addr - VIRTIO_CONSOLE_BASE, val, size, &mut self.ram),
            Region::Clint => self.clint.write(addr - CLINT_BASE, val, size),
            Region::Plic => self.plic.write(addr - PLIC_BASE, val, size),
            Region::Uart => self.uart.write(addr - UART_BASE, val, size),
            Region::Rtc => self.rtc.write(addr - RTC_BASE, val, size),
            Region::Block => self.virtio_blk.write(addr - VIRTIO_BASE, val, size, &mut self.ram),
            Region::Rng => self.virtio_rng.write(addr - VIRTIO_RNG_BASE, val, size, &mut self.ram),
            Region::Net => self.virtio_net.write(addr - VIRTIO_NET_BASE, val, size, &mut self.ram),
            Region::Keyboard => self.virtio_kbd.write(addr - VIRTIO_KBD_BASE, val, size, &mut self.ram),
            Region::Tablet => self.virtio_tablet.write(addr - VIRTIO_TABLET_BASE, val, size, &mut self.ram),
            Region::SimpleIrq => self.simple_irq.write(addr - SIMPLE_IRQ_BASE, val, size),
            Region::Blitter => self.framebuffer_blitter.write(addr - FB_BLITTER_BASE, val, size, &mut self.ram),
            Region::Test => {
                // SiFive test finisher: 0x5555 pass, 0x3333|code<<16 fail, 0x7777 reset.
                let word: u32 = val as u32;
                match word % 0x1_0000 {
                    0x5555 => {
                        self.shutdown = Some(0);
                    },
                    0x3333 => {
                        self.shutdown = Some(word / 0x1_0000);
                    },
                    0x7777 => {
                        self.reset_requested = true;
                    },
                    _ => {},
                }
                Ok(())
            },
            Region::Unmapped => Err(()),
        }
    }
}

fn within(addr: u64, end: u64, base: u64, len: u64) -> (r: bool)
    requires
        base + len <= u64::MAX,
    ensures
        r == (base <= addr && end <= base + len),
{
    addr >= base && end <= base + len
}

/// RAM gives back what was stored, at every width.
pub proof fn law_ram_store_then_load(b: BusState, addr: u64, val: u64, size: u8, post: BusState)
    requires
        addr >= DRAM_BASE,
        b.accepts(addr, val, size),
        b.may_write(addr, val, size, post),
    ensures
        post.seen(addr, size) == Ok::<u64, ()>(
            (val as nat % crate::le::pow256(size as nat)) as u64,
        ),
{
    let offset = addr - DRAM_BASE;
    let bytes = crate::le::le_bytes(val as nat, size as nat);
    crate::le::lemma_le_bytes_len(val as nat, size as nat);
    crate::ram::law_write_then_read(b.ram, offset, bytes);
    crate::le::lemma_le_low_part(val as nat, size as nat);
}

/// Every write, whether the hart's own or what a device does to RAM on its
/// account, is counted by the pages it touches.
pub proof fn law_writes_are_counted(b: BusState, addr: u64, val: u64, size: u8, post: BusState)
    requires
        paged(b.ram),
        b.may_write(addr, val, size, post),
    ensures
        post.ram.follows(b.ram, writes_per_drain()),
{
    let n = writes_per_drain();
    lemma_follows(b.ram, b.ram, 0, n);
    lemma_follows(b.ram, post.ram, 1, n);
    if addr >= DRAM_BASE {
        if b.accepts(addr, val, size) {
            lemma_le_bytes_len(val as nat, size as nat);
            law_a_write_is_counted(
                b.ram,
                addr - DRAM_BASE,
                le_bytes(val as nat, size as nat),
            );
        }
    } else {
        let offset = (addr - base_of(region_of(addr))) as u64;
        match region_of(addr) {
            Region::Console => virtio_console::law_device_writes_are_counted(
                b.virtio_console,
                offset,
                val,
                size,
                b.ram,
                post.virtio_console,
                post.ram,
            ),
            Region::Block => virtio_blk::law_device_writes_are_counted(
                b.virtio_blk,
                offset,
                val as u32,
                size,
                b.ram,
                post.virtio_blk,
                post.ram,
            ),
            Region::Rng => virtio_rng::law_device_writes_are_counted(
                b.virtio_rng,
                offset,
                val as u32,
                size,
                b.ram,
                post.virtio_rng,
                post.ram,
            ),
            Region::Net => virtio_net::law_device_writes_are_counted(
                b.virtio_net,
                offset,
                val as u32,
                size,
                b.ram,
                post.virtio_net,
                post.ram,
            ),
            Region::Keyboard => virtio_input::law_device_writes_are_counted(
                b.virtio_kbd,
                offset,
                val,
                size,
                b.ram,
                post.virtio_kbd,
                post.ram,
            ),
            Region::Tablet => virtio_input::law_device_writes_are_counted(
                b.virtio_tablet,
                offset,
                val,
                size,
                b.ram,
                post.virtio_tablet,
                post.ram,
            ),
            Region::Blitter => framebuffer_blitter::law_device_writes_are_counted(
                b.framebuffer_blitter,
                offset,
                val,
                b.ram,
            ),
            _ => {},
        }
    }
}

/// Whatever a guest reads or writes, an orderly interrupt controller stays
/// orderly.
pub proof fn law_interrupts_stay_orderly(
    b: BusState,
    addr: u64,
    val: u64,
    size: u8,
    post: BusState,
)
    requires
        b.plic.orderly(),
        b.may_write(addr, val, size, post),
    ensures
        post.plic.orderly(),
        b.after_read(addr).plic.orderly(),
{
    let offset = (addr - base_of(region_of(addr))) as u64;
    law_operations_keep_order(b.plic, 0, false, offset, val as u32);
}

/// RAM accesses never touch a device, and device reads never touch RAM.
pub proof fn law_reads_keep_ram(b: BusState, addr: u64)
    ensures
        b.after_read(addr).ram == b.ram,
        addr >= DRAM_BASE ==> b.after_read(addr) == b,
{
}

/// The memory map: each device answers in its own window, RAM from 2 GiB up,
/// and nothing anywhere else.
pub proof fn law_memory_map(addr: u64)
    ensures
        region_of(addr) == {
            if 0x10_0000 <= addr < 0x10_1000 {
                Region::Test
            } else if 0x10_1000 <= addr < 0x10_2000 {
                Region::Rtc
            } else if 0x200_0000 <= addr < 0x201_0000 {
                Region::Clint
            } else if 0xc00_0000 <= addr < 0xc60_0000 {
                Region::Plic
            } else if 0x1000_0000 <= addr < 0x1000_0100 {
                Region::Uart
            } else if 0x1000_1000 <= addr < 0x1000_2000 {
                Region::Block
            } else if 0x1000_2000 <= addr < 0x1000_3000 {
                Region::Rng
            } else if 0x1000_3000 <= addr < 0x1000_4000 {
                Region::Net
            } else if 0x1000_4000 <= addr < 0x1000_5000 {
                Region::Keyboard
            } else if 0x1000_5000 <= addr < 0x1000_6000 {
                Region::Tablet
            } else if 0x1000_6000 <= addr < 0x1000_602c {
                Region::Blitter
            } else if 0x1000_7000 <= addr < 0x1000_8000 {
                Region::Console
            } else if 0x1001_0000 <= addr < 0x1001_0020 {
                Region::SimpleIrq
            } else {
                Region::Unmapped
            }
        },
        DRAM_BASE == 0x8000_0000,
        addr >= 0x8000_0000 ==> region_of(addr) == Region::Unmapped,
{
}

/// The test finisher: 0x5555 shuts down with success, 0x3333 with the code in
/// the upper half, 0x7777 asks for a reset, and no other value does anything.
pub proof fn law_test_finisher(b: BusState, val: u64, code: u64)
    requires
        code < 0x1_0000,
    ensures
        b.finished(0x5555).shutdown == Some(0u32),
        b.finished((0x3333 + code * 0x1_0000) as u64).shutdown == Some(code as u32),
        b.finished(0x7777).reset_requested,
        b.finished(0x7777).shutdown == b.shutdown,
        b.finished(0x5555).reset_requested == b.reset_requested,
        val < 0x1_0000_0000 && val % 0x1_0000 != 0x5555 && val % 0x1_0000 != 0x3333 && val
            % 0x1_0000 != 0x7777 ==> b.finished(val) == b,
{
}

/// RAM answers inside its length and faults past its end, reading and writing
/// alike; a write to it is taken only there and leaves every device, and
/// every byte outside it, as it was.
pub proof fn law_ram_accesses(
    b: BusState,
    addr: u64,
    val: u64,
    size: u8,
    post: BusState,
    at: int,
)
    requires
        addr >= 0x8000_0000,
        size == 1 || size == 2 || size == 4 || size == 8,
        b.may_write(addr, val, size, post),
    ensures
        b.seen(addr, size) is Ok == (addr - 0x8000_0000 + size <= b.ram.bytes.len()),
        b.accepts(addr, val, size) == (addr - 0x8000_0000 + size <= b.ram.bytes.len()),
        !b.accepts(addr, val, size) ==> post == b,
        post == (BusState { ram: post.ram, ..b }),
        0 <= at < b.ram.bytes.len() && (at < addr - 0x8000_0000 || at >= addr - 0x8000_0000 + size)
            ==> post.ram.bytes[at] == b.ram.bytes[at],
{
    crate::le::lemma_le_bytes_len(val as nat, size as nat);
    if b.accepts(addr, val, size) && 0 <= at < b.ram.bytes.len() && (at < addr - 0x8000_0000 || at
        >= addr - 0x8000_0000 + size) {
        crate::ram::law_write_elsewhere(
            b.ram,
            addr - 0x8000_0000,
            crate::le::le_bytes(val as nat, size as nat),
            at,
        );
    }
}

/// Reading a device, whichever it is, has the interrupt lines sampled again;
/// reading RAM does not. A read changes at most the UART and the PLIC.
pub proof fn law_reads_resample_interrupts(b: BusState, addr: u64)
    ensures
        addr < 0x8000_0000 ==> b.after_read(addr).device_irqs_dirty,
        addr >= 0x8000_0000 ==> b.after_read(addr) == b,
        b.after_read(addr) == (BusState {
            uart: b.after_read(addr).uart,
            plic: b.after_read(addr).plic,
            device_irqs_dirty: b.after_read(addr).device_irqs_dirty,
            ..b
        }),
        region_of(addr) != Region::Uart ==> b.after_read(addr).uart == b.uart,
        region_of(addr) != Region::Plic ==> b.after_read(addr).plic == b.plic,
{
}

/// A write to the timer, the interrupt controller, the UART or the test
/// finisher changes that device alone, and has the interrupt lines sampled
/// again; a write where nothing is mapped is refused.
pub proof fn law_device_writes_stay_in_their_device(
    b: BusState,
    addr: u64,
    val: u64,
    size: u8,
    post: BusState,
)
    requires
        addr < 0x8000_0000,
        b.may_write(addr, val, size, post),
    ensures
        region_of(addr) == Region::Clint ==> post == (BusState {
            clint: post.clint,
            device_irqs_dirty: true,
            ..b
        }),
        region_of(addr) == Region::Plic ==> post == (BusState {
            plic: post.plic,
            device_irqs_dirty: true,
            ..b
        }),
        region_of(addr) == Region::Uart ==> post == (BusState {
            uart: post.uart,
            device_irqs_dirty: true,
            ..b
        }),
        region_of(addr) == Region::Test ==> post.ram == b.ram && post.clint == b.clint
            && post.plic == b.plic && post.uart == b.uart,
        region_of(addr) == Region::Unmapped ==> !b.accepts(addr, val, size) && b.seen(addr, size)
            is Err && post.ram == b.ram,
{
}

} // verus!
