//! Synchronous rectangle copy/fill for Xfbdev.
//!
//! Registers, 32 bits each: 0 identification, 4 command/status, 8 source,
//! 12 destination (byte offsets into the framebuffer), 16 width in bytes,
//! 20 height, 24 AND/plane mask, 28 XOR; 32 and 36 the requested width and
//! height, 40 the active size (read) or the size to present next (write).
//! Commands: 1 copy, 2 fill, 3 present, 4 drop the presented frame.
use vstd::prelude::*;

use super::byte_queue::copy_slice;
use super::framebuffer::{
    FB_BYTES, FB_FIRST_PAGE, FB_HEIGHT, FB_MAX_HEIGHT, FB_MAX_WIDTH, FB_RAM_OFFSET, FB_WIDTH,
};
use crate::ram::{lemma_follows, paged, Ram, RamState};
use crate::snapshot::{
    and_bytes, and_end, and_section, and_u32, and_u32s, and_u64, enc_bytes, enc_section, enc_u32,
    enc_u32s, enc_u64, lemma_enc_u32s_len, lemma_read_bytes, lemma_read_section, lemma_read_u32,
    lemma_read_u32s, lemma_read_u64, start, Parsed, Reader, RestoreError, Writer,
};

verus! {

pub const ID: u32 = 0x4546_4203;

pub const STRIDE: usize = 8192;

pub struct FramebufferBlitter {
    /// Status, source, destination, width in bytes, height, AND/plane mask, XOR.
    pub registers: [u32; 7],
    pub front: Vec<u8>,
    pub generations: Vec<u64>,
    pub presents: u64,
    pub requested: (u32, u32),
    pub active: (u32, u32),
    pub pending: (u32, u32),
    pub geometry_changed: bool,
}

/// What a [`FramebufferBlitter`] holds.
#[verifier::ext_equal]
pub struct BlitterState {
    pub registers: Seq<u32>,
    pub front: Seq<u8>,
    pub generations: Seq<u64>,
    pub presents: u64,
    pub requested: (u32, u32),
    pub active: (u32, u32),
    pub pending: (u32, u32),
    pub geometry_changed: bool,
}

impl View for FramebufferBlitter {
    type V = BlitterState;

    open spec fn view(&self) -> BlitterState {
        BlitterState {
            registers: self.registers@,
            front: self.front@,
            generations: self.generations@,
            presents: self.presents,
            requested: self.requested,
            active: self.active,
            pending: self.pending,
            geometry_changed: self.geometry_changed,
        }
    }
}

pub open spec fn size_valid(size: (u32, u32)) -> bool {
    320 <= size.0 <= FB_MAX_WIDTH && 200 <= size.1 <= FB_MAX_HEIGHT
}

/// A rectangle of whole pixels inside the backing store that does not run
/// over the end of a scanline.
pub open spec fn rectangle_valid(offset: int, width: int, height: int) -> bool {
    &&& 0 <= offset < FB_BYTES
    &&& offset % 4 == 0
    &&& 0 < width <= 8192
    &&& width % 4 == 0
    &&& offset % 8192 + width <= 8192
    &&& 0 < height <= 2048
    &&& offset + (height - 1) * 8192 + width <= FB_BYTES
}

/// Whether the RAM byte at `at` lies in rows `lo .. hi` of the rectangle at
/// `offset`.
pub open spec fn in_rows(offset: int, width: int, lo: int, hi: int, at: int) -> bool {
    let rel = at - FB_RAM_OFFSET - offset;
    lo <= rel / 8192 < hi && rel % 8192 < width
}

/// Whether rows `lo .. hi` of the rectangle have bytes on a RAM page. A
/// scanline is two pages, so a page belongs to one row at most.
pub open spec fn on_page(offset: int, width: int, lo: int, hi: int, page: int) -> bool {
    let rel = page - FB_FIRST_PAGE;
    let column = offset % 8192;
    &&& lo <= rel / 2 - offset / 8192 < hi
    &&& column / 4096 <= rel % 2 <= (column + width - 1) / 4096
}

/// RAM with the bytes of rows `lo .. hi` of a rectangle painted, each page
/// they lie on counting one write.
pub open spec fn painted(
    ram: RamState,
    offset: int,
    width: int,
    lo: int,
    hi: int,
    paint: spec_fn(int) -> u8,
) -> RamState {
    RamState {
        bytes: Seq::new(
            ram.bytes.len(),
            |at: int|
                if in_rows(offset, width, lo, hi, at) {
                    paint(at)
                } else {
                    ram.bytes[at]
                },
        ),
        generations: Seq::new(
            ram.generations.len(),
            |page: int|
                if on_page(offset, width, lo, hi, page) {
                    ram.generations[page].wrapping_add(1)
                } else {
                    ram.generations[page]
                },
        ),
    }
}

/// Byte `i` of a register, lowest first.
pub open spec fn byte_of(word: u32, i: int) -> u8 {
    (if i == 0 {
        word % 256
    } else if i == 1 {
        word / 0x100 % 256
    } else if i == 2 {
        word / 0x1_0000 % 256
    } else {
        word / 0x100_0000 % 256
    }) as u8
}

/// The column of a RAM byte within a rectangle's row, within its pixel.
pub open spec fn lane(offset: int, at: int) -> int {
    (at - FB_RAM_OFFSET - offset) % 8192 % 4
}

/// A copied byte: source where the plane mask is set, destination elsewhere,
/// both as they were before the copy.
pub open spec fn copied(ram: RamState, source: int, destination: int, mask: u32) -> spec_fn(
    int,
) -> u8 {
    |at: int|
        {
            let m = byte_of(mask, lane(destination, at));
            (ram.bytes[at - destination + source] & m) | (ram.bytes[at] & !m)
        }
}

/// A filled byte: the destination masked, then inverted where XOR is set.
pub open spec fn filled(ram: RamState, destination: int, and: u32, xor: u32) -> spec_fn(int) -> u8 {
    |at: int|
        {
            let i = lane(destination, at);
            (ram.bytes[at] & byte_of(and, i)) ^ byte_of(xor, i)
        }
}

/// The write count of a scanline: its two pages'.
pub open spec fn row_generation(ram: RamState, row: int) -> u64 {
    let page = FB_FIRST_PAGE + 2 * row;
    ram.generations[page].wrapping_add(ram.generations[page + 1])
}

/// The framebuffer fits the RAM.
pub open spec fn has_framebuffer(ram: RamState) -> bool {
    FB_RAM_OFFSET + FB_BYTES <= ram.bytes.len()
}

impl BlitterState {
    pub open spec fn fresh() -> BlitterState {
        BlitterState {
            registers: seq![0u32, 0u32, 0u32, 0u32, 0u32, 0u32, 0u32],
            front: Seq::empty(),
            generations: Seq::empty(),
            presents: 0,
            requested: (FB_WIDTH, FB_HEIGHT),
            active: (FB_WIDTH, FB_HEIGHT),
            pending: (FB_WIDTH, FB_HEIGHT),
            geometry_changed: false,
        }
    }

    pub open spec fn wf(self) -> bool {
        &&& self.registers.len() == 7
        &&& (self.front.len() == 0 && self.generations.len() == 0) || (self.front.len() == FB_BYTES
            && self.generations.len() == 2048)
        &&& size_valid(self.requested)
        &&& size_valid(self.active)
        &&& size_valid(self.pending)
    }

    pub open spec fn seen(self, offset: u64, size: u8) -> Result<u64, ()> {
        if size != 4 || offset > 40 || offset % 4 != 0 {
            Err(())
        } else if offset == 0 {
            Ok(ID as u64)
        } else if offset == 32 {
            Ok(self.requested.0 as u64)
        } else if offset == 36 {
            Ok(self.requested.1 as u64)
        } else if offset == 40 {
            Ok((self.active.1 * 0x1_0000 + self.active.0) as u64)
        } else {
            Ok(self.registers[offset / 4 - 1] as u64)
        }
    }

    /// The presented frame after the framebuffer is taken up: the rows that
    /// were written since the last time, all of them the first time.
    pub open spec fn frame(self, ram: RamState) -> Seq<u8> {
        Seq::new(
            FB_BYTES as nat,
            |i: int|
                if self.front.len() == 0 || row_generation(ram, i / 8192)
                    != self.generations[i / 8192] {
                    ram.bytes[FB_RAM_OFFSET + i]
                } else {
                    self.front[i]
                },
        )
    }

    pub open spec fn presented(self, ram: RamState) -> BlitterState {
        BlitterState {
            front: self.frame(ram),
            generations: Seq::new(2048, |row: int| row_generation(ram, row)),
            geometry_changed: self.geometry_changed || self.active != self.pending,
            active: self.pending,
            presents: self.presents.wrapping_add(1),
            ..self
        }
    }

    /// A command carried out: its result, the blitter and RAM afterwards.
    pub open spec fn executed(self, command: u32, ram: RamState) -> (
        Result<(), ()>,
        BlitterState,
        RamState,
    ) {
        let source = self.registers[1] as int;
        let destination = self.registers[2] as int;
        let width = self.registers[3] as int;
        let height = self.registers[4] as int;
        let and = self.registers[5];
        let xor = self.registers[6];
        let drawable = has_framebuffer(ram) && rectangle_valid(destination, width, height);
        if command == 3 && has_framebuffer(ram) {
            (Ok(()), self.presented(ram), ram)
        } else if command == 4 {
            (
                Ok(()),
                BlitterState { front: Seq::empty(), generations: Seq::empty(), ..self },
                ram,
            )
        } else if command == 1 && drawable && rectangle_valid(source, width, height) {
            (
                Ok(()),
                self,
                painted(
                    ram,
                    destination,
                    width,
                    0,
                    height,
                    copied(ram, source, destination, and),
                ),
            )
        } else if command == 2 && drawable {
            (
                Ok(()),
                self,
                painted(ram, destination, width, 0, height, filled(ram, destination, and, xor)),
            )
        } else {
            (Err(()), self, ram)
        }
    }

    pub open spec fn with_register(self, index: int, value: u32) -> BlitterState {
        BlitterState { registers: self.registers.update(index, value), ..self }
    }

    pub open spec fn accepts(offset: u64, value: u64, size: u8) -> bool {
        &&& size == 4
        &&& offset != 0
        &&& offset <= 40
        &&& offset % 4 == 0
        &&& offset != 32
        &&& offset != 36
        &&& offset == 40 ==> size_valid(
            ((value as u32 % 0x1_0000) as u32, (value as u32 / 0x1_0000) as u32),
        )
    }

    /// The blitter and RAM after an accepted register write.
    pub open spec fn written(self, offset: u64, value: u64, ram: RamState) -> (
        BlitterState,
        RamState,
    ) {
        let v = value as u32;
        if offset == 40 {
            (BlitterState { pending: ((v % 0x1_0000) as u32, (v / 0x1_0000) as u32), ..self }, ram)
        } else if offset == 4 {
            let (result, post, ram2) = self.with_register(0, v).executed(v, ram);
            (
                post.with_register(
                    0,
                    if result is Err {
                        1
                    } else {
                        0
                    },
                ),
                ram2,
            )
        } else {
            (self.with_register(offset / 4 - 1, v), ram)
        }
    }
}

impl Default for FramebufferBlitter {
    fn default() -> (r: Self)
        ensures
            r@.wf(),
            r@ == BlitterState::fresh(),
    {
        let r = Self {
            registers: [0; 7],
            front: Vec::new(),
            generations: Vec::new(),
            presents: 0,
            requested: (FB_WIDTH, FB_HEIGHT),
            active: (FB_WIDTH, FB_HEIGHT),
            pending: (FB_WIDTH, FB_HEIGHT),
            geometry_changed: false,
        };
        assert(r.registers@ =~= seq![0u32, 0u32, 0u32, 0u32, 0u32, 0u32, 0u32]);
        r
    }
}

impl FramebufferBlitter {
    pub fn read(&self, offset: u64, size: u8) -> (r: Result<u64, ()>)
        requires
            self@.wf(),
        ensures
            r == self@.seen(offset, size),
    {
        if size != 4 || offset > 40 || offset % 4 != 0 {
            return Err(());
        }
        if offset == 0 {
            return Ok(ID as u64);
        }
        if offset == 32 {
            return Ok(self.requested.0 as u64);
        }
        if offset == 36 {
            return Ok(self.requested.1 as u64);
        }
        if offset == 40 {
            return Ok(self.active.1 as u64 * 0x1_0000 + self.active.0 as u64);
        }
        Ok(self.registers[(offset / 4 - 1) as usize] as u64)
    }

    pub fn write(&mut self, offset: u64, value: u64, size: u8, ram: &mut Ram) -> (r: Result<(), ()>)
        requires
            old(self)@.wf(),
            old(ram).wf(),
        ensures
            final(self)@.wf(),
            final(ram).wf(),
            final(ram)@.bytes.len() == old(ram)@.bytes.len(),
            r is Ok <==> BlitterState::accepts(offset, value, size),
            (final(self)@, final(ram)@) == (if r is Ok {
                old(self)@.written(offset, value, old(ram)@)
            } else {
                (old(self)@, old(ram)@)
            }),
    {
        if size != 4 || offset == 0 || offset > 40 || offset % 4 != 0 {
            return Err(());
        }
        if offset == 32 || offset == 36 {
            return Err(());
        }
        let v: u32 = value as u32;
        if offset == 40 {
            let asked: (u32, u32) = (v % 0x1_0000, v / 0x1_0000);
            if !valid_size(asked) {
                return Err(());
            }
            self.pending = asked;
            return Ok(());
        }
        self.registers[(offset / 4 - 1) as usize] = v;
        assert(self@ =~= old(self)@.with_register(offset / 4 - 1, v));
        if offset == 4 {
            let status: u32 = if self.execute(v, ram).is_err() {
                1
            } else {
                0
            };
            let ghost before = self@;
            self.registers[0] = status;
            assert(self@ =~= before.with_register(0, status));
        }
        Ok(())
    }

    pub fn request_size(&mut self, width: u32, height: u32) -> (r: Result<(), ()>)
        requires
            old(self)@.wf(),
        ensures
            final(self)@.wf(),
            r is Ok <==> size_valid((width, height)),
            final(self)@ == (if r is Ok {
                BlitterState { requested: (width, height), ..old(self)@ }
            } else {
                old(self)@
            }),
    {
        if !valid_size((width, height)) {
            return Err(());
        }
        self.requested = (width, height);
        Ok(())
    }

    pub fn size(&self) -> (r: (u32, u32))
        ensures
            r == self@.active,
    {
        self.active
    }

    pub fn take_geometry_changed(&mut self) -> (r: bool)
        ensures
            r == old(self)@.geometry_changed,
            final(self)@ == (BlitterState { geometry_changed: false, ..old(self)@ }),
    {
        let changed = self.geometry_changed;
        self.geometry_changed = false;
        changed
    }

    pub fn committed(&self) -> (r: bool)
        ensures
            r == (self@.front.len() != 0),
    {
        self.front.len() != 0
    }

    pub fn generations(&self) -> (r: &[u64])
        ensures
            r@ == self@.generations,
    {
        self.generations.as_slice()
    }

    pub fn row(&self, row: u32) -> (r: &[u8])
        ensures
            r@ == (if (row + 1) * 8192 <= self@.front.len() {
                self@.front.subrange(row * 8192, (row + 1) * 8192)
            } else {
                Seq::empty()
            }),
    {
        let begin: u64 = row as u64 * 8192;
        let total: usize = self.front.len();
        if begin + 8192 <= total as u64 {
            vstd::slice::slice_subrange(
                self.front.as_slice(),
                begin as usize,
                begin as usize + STRIDE,
            )
        } else {
            assert(self.front@.subrange(0, 0) =~= Seq::empty());
            vstd::slice::slice_subrange(self.front.as_slice(), 0, 0)
        }
    }

    /// Take up the framebuffer as the frame to show.
    pub fn present(&mut self, ram: &Ram) -> (r: Result<(), ()>)
        requires
            old(self)@.wf(),
            ram.wf(),
        ensures
            final(self)@.wf(),
            r is Ok <==> has_framebuffer(ram@),
            final(self)@ == (if r is Ok {
                old(self)@.presented(ram@)
            } else {
                old(self)@
            }),
    {
        let pixels = match ram.read_slice(FB_RAM_OFFSET, FB_BYTES as usize) {
            Ok(p) => p,
            Err(_) => return Err(()),
        };
        let pages = ram.page_generations(FB_FIRST_PAGE, 4096);
        let generations = row_generations(ram, pages);
        if self.front.len() == 0 {
            self.front = copy_slice(pixels);
            assert(self.front@ =~= old(self)@.frame(ram@));
        } else {
            let mut row: usize = 0;
            while row < 2048
                invariant
                    row <= 2048,
                    old(self)@.front.len() == FB_BYTES,
                    old(self)@.generations.len() == 2048,
                    self.front@.len() == FB_BYTES,
                    self.registers == old(self).registers,
                    self.generations == old(self).generations,
                    self.presents == old(self).presents,
                    self.requested == old(self).requested,
                    self.active == old(self).active,
                    self.pending == old(self).pending,
                    self.geometry_changed == old(self).geometry_changed,
                    pixels@ == ram@.slice(FB_RAM_OFFSET as int, FB_BYTES as int),
                    has_framebuffer(ram@),
                    generations@ == Seq::new(2048, |k: int| row_generation(ram@, k)),
                    forall|i: int|
                        0 <= i < 8192 * row ==> #[trigger] self.front@[i] == old(self)@.frame(
                            ram@,
                        )[i],
                    forall|i: int|
                        8192 * row <= i < FB_BYTES ==> #[trigger] self.front@[i] == old(
                            self,
                        )@.front[i],
                decreases 2048 - row,
            {
                if generations[row] != self.generations[row] {
                    copy_row(&mut self.front, pixels, row);
                }
                assert forall|i: int| 0 <= i < 8192 * (row + 1) implies #[trigger] self.front@[i]
                    == old(self)@.frame(ram@)[i] by {
                    if i >= 8192 * row {
                        assert(i / 8192 == row);
                    }
                }
                row = row + 1;
            }
            assert(self.front@ =~= old(self)@.frame(ram@));
        }
        self.generations = generations;
        self.geometry_changed = self.geometry_changed || self.active.0 != self.pending.0
            || self.active.1 != self.pending.1;
        self.active = self.pending;
        self.presents = self.presents.wrapping_add(1);
        Ok(())
    }

    fn execute(&mut self, command: u32, ram: &mut Ram) -> (r: Result<(), ()>)
        requires
            old(self)@.wf(),
            old(ram).wf(),
        ensures
            final(self)@.wf(),
            final(ram).wf(),
            final(ram)@.bytes.len() == old(ram)@.bytes.len(),
            (r, final(self)@, final(ram)@) == old(self)@.executed(command, old(ram)@),
    {
        if command == 3 {
            return match self.present(ram) {
                Ok(_) => Ok(()),
                Err(_) => Err(()),
            };
        }
        if command == 4 {
            self.front.clear();
            self.generations.clear();
            return Ok(());
        }
        let source: u64 = self.registers[1] as u64;
        let destination: u64 = self.registers[2] as u64;
        let width: u64 = self.registers[3] as u64;
        let height: u64 = self.registers[4] as u64;
        let and: u32 = self.registers[5];
        let xor: u32 = self.registers[6];
        if (command != 1 && command != 2) || ram.size() < FB_RAM_OFFSET + FB_BYTES
            || !valid_rectangle(destination, width, height) || (command == 1 && !valid_rectangle(
            source,
            width,
            height,
        )) {
            return Err(());
        }
        if command == 1 {
            copy_rectangle(ram, source, destination, width as usize, height, and);
        } else {
            fill_rectangle(ram, destination, width as usize, height, and, xor);
        }
        Ok(())
    }
}

/// The write count of every scanline, from its pages' counts.
fn row_generations(ram: &Ram, pages: &[u64]) -> (r: Vec<u64>)
    requires
        ram.wf(),
        has_framebuffer(ram@),
        pages@ == ram@.generations.subrange(FB_FIRST_PAGE as int, FB_FIRST_PAGE + 4096),
    ensures
        r@ == Seq::new(2048, |row: int| row_generation(ram@, row)),
{
    let mut out: Vec<u64> = Vec::new();
    let mut row: usize = 0;
    while row < 2048
        invariant
            row <= 2048,
            has_framebuffer(ram@),
            ram.wf(),
            pages@ == ram@.generations.subrange(FB_FIRST_PAGE as int, FB_FIRST_PAGE + 4096),
            out@ == Seq::new(row as nat, |k: int| row_generation(ram@, k)),
        decreases 2048 - row,
    {
        out.push(pages[2 * row].wrapping_add(pages[2 * row + 1]));
        row = row + 1;
        assert(out@ =~= Seq::new(row as nat, |k: int| row_generation(ram@, k)));
    }
    out
}

/// Take one scanline of `pixels` over into `front`.
fn copy_row(front: &mut Vec<u8>, pixels: &[u8], row: usize)
    requires
        row < 2048,
        old(front)@.len() == FB_BYTES,
        pixels@.len() == FB_BYTES,
    ensures
        final(front)@.len() == FB_BYTES,
        forall|i: int|
            0 <= i < FB_BYTES ==> #[trigger] final(front)@[i] == (if i / 8192 == row {
                pixels@[i]
            } else {
                old(front)@[i]
            }),
{
    let begin: usize = row * 8192;
    let mut x: usize = 0;
    while x < 8192
        invariant
            x <= 8192,
            begin == row * 8192,
            begin + 8192 <= FB_BYTES,
            front@.len() == FB_BYTES,
            old(front)@.len() == FB_BYTES,
            pixels@.len() == FB_BYTES,
            forall|i: int|
                0 <= i < FB_BYTES ==> #[trigger] front@[i] == (if begin <= i < begin + x {
                    pixels@[i]
                } else {
                    old(front)@[i]
                }),
        decreases 8192 - x,
    {
        front.set(begin + x, pixels[begin + x]);
        x = x + 1;
    }
}

fn valid_size(size: (u32, u32)) -> (r: bool)
    ensures
        r == size_valid(size),
{
    320 <= size.0 && size.0 <= FB_MAX_WIDTH && 200 <= size.1 && size.1 <= FB_MAX_HEIGHT
}

fn valid_rectangle(offset: u64, width: u64, height: u64) -> (r: bool)
    requires
        offset <= u32::MAX,
        width <= u32::MAX,
        height <= u32::MAX,
    ensures
        r == rectangle_valid(offset as int, width as int, height as int),
{
    offset < FB_BYTES && offset % 4 == 0 && width > 0 && width <= 8192 && width % 4 == 0 && offset
        % 8192 + width <= 8192 && height > 0 && height <= 2048 && offset + (height - 1) * 8192
        + width <= FB_BYTES
}

/// One byte of a mask register.
fn byte_at(word: u32, i: usize) -> (r: u8)
    requires
        i < 4,
    ensures
        r == byte_of(word, i as int),
{
    if i == 0 {
        (word % 256) as u8
    } else if i == 1 {
        (word / 0x100 % 256) as u8
    } else if i == 2 {
        (word / 0x1_0000 % 256) as u8
    } else {
        (word / 0x100_0000 % 256) as u8
    }
}

/// Adding a row next to the painted ones: its bytes written, its pages
/// counted.
proof fn lemma_paint_row(
    ram: RamState,
    offset: int,
    width: int,
    height: int,
    lo: int,
    hi: int,
    y: int,
    paint: spec_fn(int) -> u8,
    row: Seq<u8>,
)
    requires
        rectangle_valid(offset, width, height),
        has_framebuffer(ram),
        0 <= lo <= hi <= height,
        0 <= y < height,
        y == hi || y == lo - 1,
        row.len() == width,
        forall|x: int|
            0 <= x < width ==> #[trigger] row[x] == paint(FB_RAM_OFFSET + offset + y * 8192 + x),
    ensures
        painted(ram, offset, width, lo, hi, paint).written(
            FB_RAM_OFFSET + offset + y * 8192,
            row,
        ) == painted(
            ram,
            offset,
            width,
            if y == hi {
                lo
            } else {
                y
            },
            if y == hi {
                y + 1
            } else {
                hi
            },
            paint,
        ),
{
    let at = FB_RAM_OFFSET + offset + y * 8192;
    let before = painted(ram, offset, width, lo, hi, paint);
    let lo2 = if y == hi {
        lo
    } else {
        y
    };
    let hi2 = if y == hi {
        y + 1
    } else {
        hi
    };
    let after = painted(ram, offset, width, lo2, hi2, paint);
    let got = before.written(at, row);
    assert(got.bytes.len() == after.bytes.len());
    assert forall|a: int| 0 <= a < after.bytes.len() implies got.bytes[a] == after.bytes[a] by {
        let rel = a - FB_RAM_OFFSET - offset;
        if at <= a < at + width {
            assert(rel / 8192 == y && rel % 8192 == a - at);
            assert(row[a - at] == paint(at + (a - at)));
        } else {
            assert(got.bytes[a] == before.bytes[a]);
            if rel / 8192 == y && rel % 8192 < width {
                assert(a - at == rel % 8192);
            }
        }
    }
    assert forall|p: int| 0 <= p < after.generations.len() implies got.generations[p]
        == after.generations[p] by {
        let rel = p - FB_FIRST_PAGE;
        let column = offset % 8192;
        let in_row = at / 4096 <= p <= (at + width - 1) / 4096;
        assert(at == FB_RAM_OFFSET + (offset / 8192 + y) * 8192 + column);
        assert(at / 4096 == FB_FIRST_PAGE + (offset / 8192 + y) * 2 + column / 4096);
        assert((at + width - 1) / 4096 == FB_FIRST_PAGE + (offset / 8192 + y) * 2 + (column + width
            - 1) / 4096);
        assert(in_row == (rel / 2 == offset / 8192 + y && column / 4096 <= rel % 2 <= (column
            + width - 1) / 4096));
    }
    assert(got.bytes =~= after.bytes);
    assert(got.generations =~= after.generations);
}

proof fn lemma_masks(s: u8, d: u8)
    by (bit_vector)
    ensures
        (s & 0xff) | (d & !0xffu8) == s,
        d & 0 == 0,
        s ^ 0 == s,
{
}

/// The bytes one row of a copy puts down.
fn copied_row(ram: &Ram, src: u64, dst: u64, width: usize, and: u32) -> (r: Vec<u8>)
    requires
        ram.wf(),
        ram@.in_range(src as int, width as int),
        ram@.in_range(dst as int, width as int),
    ensures
        r@.len() == width,
        forall|x: int|
            0 <= x < width ==> #[trigger] r@[x] == (ram@.bytes[src + x] & byte_of(and, x % 4)) | (
            ram@.bytes[dst + x] & !byte_of(and, x % 4)),
{
    let mut row: Vec<u8> = Vec::new();
    match (ram.read_slice(src, width), ram.read_slice(dst, width)) {
        (Ok(from), Ok(previous)) => {
            let mut x: usize = 0;
            while x < width
                invariant
                    x <= width,
                    row@.len() == x,
                    from@.len() == width,
                    previous@.len() == width,
                    from@ == ram@.slice(src as int, width as int),
                    previous@ == ram@.slice(dst as int, width as int),
                    ram@.in_range(src as int, width as int),
                    ram@.in_range(dst as int, width as int),
                    forall|k: int|
                        0 <= k < x ==> #[trigger] row@[k] == (ram@.bytes[src + k] & byte_of(
                            and,
                            k % 4,
                        )) | (ram@.bytes[dst + k] & !byte_of(and, k % 4)),
                decreases width - x,
            {
                let mask: u8 = byte_at(and, x % 4);
                row.push((from[x] & mask) | (previous[x] & !mask));
                x = x + 1;
            }
        },
        _ => {},
    }
    row
}

/// The bytes one row of a fill puts down.
fn filled_row(ram: &Ram, dst: u64, width: usize, and: u32, xor: u32) -> (r: Vec<u8>)
    requires
        ram.wf(),
        ram@.in_range(dst as int, width as int),
    ensures
        r@.len() == width,
        forall|x: int|
            0 <= x < width ==> #[trigger] r@[x] == (ram@.bytes[dst + x] & byte_of(and, x % 4))
                ^ byte_of(xor, x % 4),
{
    let mut row: Vec<u8> = Vec::new();
    match ram.read_slice(dst, width) {
        Ok(previous) => {
            let mut x: usize = 0;
            while x < width
                invariant
                    x <= width,
                    row@.len() == x,
                    previous@.len() == width,
                    previous@ == ram@.slice(dst as int, width as int),
                    ram@.in_range(dst as int, width as int),
                    forall|k: int|
                        0 <= k < x ==> #[trigger] row@[k] == (ram@.bytes[dst + k] & byte_of(
                            and,
                            k % 4,
                        )) ^ byte_of(xor, k % 4),
                decreases width - x,
            {
                row.push((previous[x] & byte_at(and, x % 4)) ^ byte_at(xor, x % 4));
                x = x + 1;
            }
        },
        Err(_) => {},
    }
    row
}

/// Copy a rectangle, rows in the order that never overwrites one still to be
/// read.
fn copy_rectangle(
    ram: &mut Ram,
    source: u64,
    destination: u64,
    width: usize,
    height: u64,
    and: u32,
)
    requires
        old(ram).wf(),
        has_framebuffer(old(ram)@),
        rectangle_valid(source as int, width as int, height as int),
        rectangle_valid(destination as int, width as int, height as int),
    ensures
        final(ram).wf(),
        final(ram)@.bytes.len() == old(ram)@.bytes.len(),
        final(ram)@ == painted(
            old(ram)@,
            destination as int,
            width as int,
            0,
            height as int,
            copied(old(ram)@, source as int, destination as int, and),
        ),
{
    let ghost before = ram@;
    let ghost paint = copied(before, source as int, destination as int, and);
    let upward = destination > source;
    let mut index: u64 = 0;
    assert(ram@ =~= painted(before, destination as int, width as int, 0, 0, paint));
    assert(ram@ =~= painted(
        before,
        destination as int,
        width as int,
        height as int,
        height as int,
        paint,
    ));
    while index < height
        invariant
            index <= height,
            ram.wf(),
            has_framebuffer(before),
            rectangle_valid(source as int, width as int, height as int),
            rectangle_valid(destination as int, width as int, height as int),
            upward == (destination > source),
            paint == copied(before, source as int, destination as int, and),
            ram@ == painted(
                before,
                destination as int,
                width as int,
                if upward {
                    height - index
                } else {
                    0
                },
                if upward {
                    height as int
                } else {
                    index as int
                },
                paint,
            ),
        decreases height - index,
    {
        let y: u64 = if upward {
            height - 1 - index
        } else {
            index
        };
        let src: u64 = FB_RAM_OFFSET + source + y * 8192;
        let dst: u64 = FB_RAM_OFFSET + destination + y * 8192;
        let row = copied_row(ram, src, dst, width, and);
        proof {
            let (lo, hi) = if upward {
                (height - index, height as int)
            } else {
                (0int, index as int)
            };
            assert forall|x: int| 0 <= x < width implies #[trigger] row@[x] == paint(dst + x) by {
                let s = src + x;
                let d = dst + x;
                // Neither row has been written yet.
                assert((d - FB_RAM_OFFSET - destination) / 8192 == y);
                assert((d - FB_RAM_OFFSET - destination) % 8192 == x);
                assert(!in_rows(destination as int, width as int, lo, hi, d));
                assert(!in_rows(destination as int, width as int, lo, hi, s)) by {
                    let rel = s - FB_RAM_OFFSET - destination;
                    assert(rel == source - destination + y * 8192 + x);
                    if upward {
                        assert(rel < (y + 1) * 8192);
                        assert(rel / 8192 <= y);
                    } else {
                        assert(rel >= y * 8192);
                        assert(rel / 8192 >= y);
                    }
                }
                assert(ram@.bytes[s] == before.bytes[s]);
                assert(ram@.bytes[d] == before.bytes[d]);
                assert(lane(destination as int, d) == x % 4);
                assert(d - destination + source == s);
            }
            lemma_paint_row(
                before,
                destination as int,
                width as int,
                height as int,
                lo,
                hi,
                y as int,
                paint,
                row@,
            );
        }
        let _ = ram.write_slice(dst, row.as_slice());
        index = index + 1;
    }
}

fn fill_rectangle(ram: &mut Ram, destination: u64, width: usize, height: u64, and: u32, xor: u32)
    requires
        old(ram).wf(),
        has_framebuffer(old(ram)@),
        rectangle_valid(destination as int, width as int, height as int),
    ensures
        final(ram).wf(),
        final(ram)@.bytes.len() == old(ram)@.bytes.len(),
        final(ram)@ == painted(
            old(ram)@,
            destination as int,
            width as int,
            0,
            height as int,
            filled(old(ram)@, destination as int, and, xor),
        ),
{
    let ghost before = ram@;
    let ghost paint = filled(before, destination as int, and, xor);
    let mut y: u64 = 0;
    assert(ram@ =~= painted(before, destination as int, width as int, 0, 0, paint));
    while y < height
        invariant
            y <= height,
            ram.wf(),
            has_framebuffer(before),
            rectangle_valid(destination as int, width as int, height as int),
            paint == filled(before, destination as int, and, xor),
            ram@ == painted(before, destination as int, width as int, 0, y as int, paint),
        decreases height - y,
    {
        let dst: u64 = FB_RAM_OFFSET + destination + y * 8192;
        let row = filled_row(ram, dst, width, and, xor);
        proof {
            assert forall|x: int| 0 <= x < width implies #[trigger] row@[x] == paint(dst + x) by {
                let d = dst + x;
                assert((d - FB_RAM_OFFSET - destination) / 8192 == y);
                assert((d - FB_RAM_OFFSET - destination) % 8192 == x);
                assert(ram@.bytes[d] == before.bytes[d]);
                assert(lane(destination as int, d) == x % 4);
            }
            lemma_paint_row(
                before,
                destination as int,
                width as int,
                height as int,
                0,
                y as int,
                y as int,
                paint,
                row@,
            );
        }
        let _ = ram.write_slice(dst, row.as_slice());
        y = y + 1;
    }
}

/// A copy with every plane enabled moves the rectangle as if its source never
/// changed, however the two overlap, and touches nothing else.
pub proof fn law_copy_moves_the_rectangle(
    ram: RamState,
    source: int,
    destination: int,
    width: int,
    height: int,
    y: int,
    x: int,
    at: int,
)
    requires
        has_framebuffer(ram),
        rectangle_valid(source, width, height),
        rectangle_valid(destination, width, height),
        0 <= y < height,
        0 <= x < width,
        0 <= at < ram.bytes.len(),
        !in_rows(destination, width, 0, height, at),
    ensures
        ({
            let after = painted(
                ram,
                destination,
                width,
                0,
                height,
                copied(ram, source, destination, u32::MAX),
            );
            &&& after.bytes[FB_RAM_OFFSET + destination + y * 8192 + x]
                == ram.bytes[FB_RAM_OFFSET + source + y * 8192 + x]
            &&& after.bytes[at] == ram.bytes[at]
        }),
{
    let d = FB_RAM_OFFSET + destination + y * 8192 + x;
    let s = FB_RAM_OFFSET + source + y * 8192 + x;
    assert((d - FB_RAM_OFFSET - destination) / 8192 == y);
    assert((d - FB_RAM_OFFSET - destination) % 8192 == x);
    lemma_masks(ram.bytes[s], ram.bytes[d]);
}

/// A fill with a zero mask paints a solid colour.
pub proof fn law_zero_mask_fills_solid(
    ram: RamState,
    destination: int,
    width: int,
    height: int,
    xor: u32,
    at: int,
)
    requires
        has_framebuffer(ram),
        rectangle_valid(destination, width, height),
        in_rows(destination, width, 0, height, at),
        0 <= at < ram.bytes.len(),
    ensures
        painted(
            ram,
            destination,
            width,
            0,
            height,
            filled(ram, destination, 0, xor),
        ).bytes[at] == byte_of(xor, lane(destination, at)),
{
    let value = byte_of(xor, lane(destination, at));
    lemma_masks(value, ram.bytes[at]);
    let zero = ram.bytes[at] & 0;
    assert(0u8 ^ value == value) by (bit_vector);
}

/// A refused command leaves the RAM and the presented frame alone.
pub proof fn law_invalid_command_is_inert(b: BlitterState, command: u32, ram: RamState)
    requires
        b.executed(command, ram).0 is Err,
    ensures
        b.executed(command, ram) == (Err::<(), ()>(()), b, ram),
{
}

proof fn lemma_painted_follows(
    ram: RamState,
    offset: int,
    width: int,
    height: int,
    paint: spec_fn(int) -> u8,
)
    requires
        paged(ram),
        rectangle_valid(offset, width, height),
    ensures
        painted(ram, offset, width, 0, height, paint).follows(ram, 1),
{
    let later = painted(ram, offset, width, 0, height, paint);
    assert forall|at: int|
        0 <= at < ram.bytes.len() && ram.generations[at / 4096] == later.generations[at
            / 4096] implies #[trigger] later.bytes[at] == ram.bytes[at] by {
        if in_rows(offset, width, 0, height, at) {
            let rel = at - FB_RAM_OFFSET - offset;
            let row = rel / 8192;
            let x = rel % 8192;
            let column = offset % 8192;
            assert(at - FB_RAM_OFFSET == (offset / 8192 + row) * 8192 + column + x);
            assert(at / 4096 - FB_FIRST_PAGE == (offset / 8192 + row) * 2 + (column + x) / 4096);
            assert(on_page(offset, width, 0, height, at / 4096));
            assert(ram.generations[at / 4096].wrapping_add(1) != ram.generations[at / 4096]);
        }
    }
}

/// Whatever a register write makes the blitter do to RAM is counted there.
pub proof fn law_device_writes_are_counted(b: BlitterState, offset: u64, value: u64, ram: RamState)
    requires
        paged(ram),
    ensures
        b.written(offset, value, ram).1.follows(ram, 1),
{
    lemma_follows(ram, ram, 0, 1);
    let c = b.with_register(0, value as u32);
    let destination = c.registers[2] as int;
    let width = c.registers[3] as int;
    let height = c.registers[4] as int;
    let ram2 = b.written(offset, value, ram).1;
    if ram2 != ram {
        lemma_painted_follows(
            ram,
            destination,
            width,
            height,
            copied(ram, c.registers[1] as int, destination, c.registers[5]),
        );
        lemma_painted_follows(
            ram,
            destination,
            width,
            height,
            filled(ram, destination, c.registers[5], c.registers[6]),
        );
    }
}

// ---------------------------------------------------------------------------
// State snapshot
// ---------------------------------------------------------------------------

pub const SNAPSHOT_VERSION: u16 = 3;

impl BlitterState {
    pub open spec fn encoding(self) -> Seq<u8> {
        enc_u32s(self.registers) + enc_bytes(self.front) + enc_u64(self.presents) + enc_u32(
            self.active.0,
        ) + enc_u32(self.active.1) + enc_u32(self.pending.0) + enc_u32(self.pending.1)
    }

    /// The blitter a snapshot of this one restores to: the presented rows
    /// count as stale, and the host is told of the size.
    pub open spec fn resumed(self) -> BlitterState {
        BlitterState {
            generations: Seq::new(
                if self.front.len() == 0 {
                    0
                } else {
                    2048
                },
                |i: int| (u64::MAX - 1) as u64,
            ),
            requested: self.pending,
            geometry_changed: true,
            ..self
        }
    }

    /// The state a payload describes.
    pub open spec fn decoded(payload: Seq<u8>) -> Result<BlitterState, RestoreError> {
        match and_bytes(and_u32s(start(payload), 7)) {
            Err(e) => Err(e),
            Ok((((_, registers), front), rest)) => if front.len() != 0 && front.len() != FB_BYTES {
                Err(RestoreError::FramebufferSize)
            } else {
                match and_u32(and_u32(and_u64(start(rest)))) {
                    Err(e) => Err(e),
                    Ok(((((_, presents), w), h), rest2)) => if !size_valid((w, h)) {
                        Err(RestoreError::FramebufferGeometry)
                    } else {
                        match and_u32(and_u32(start(rest2))) {
                            Err(e) => Err(e),
                            Ok((((_, pw), ph), rest3)) => if !size_valid((pw, ph)) {
                                Err(RestoreError::PendingGeometry)
                            } else {
                                match and_end(start(rest3)) {
                                    Err(e) => Err(e),
                                    Ok(_) => Ok(
                                        (BlitterState {
                                            registers,
                                            front,
                                            presents,
                                            active: (w, h),
                                            pending: (pw, ph),
                                            ..BlitterState::fresh()
                                        }).resumed(),
                                    ),
                                }
                            },
                        }
                    },
                }
            },
        }
    }
}

/// The counts given to rows taken from a snapshot, which no RAM page has.
fn stale_rows(count: usize) -> (r: Vec<u64>)
    ensures
        r@ == Seq::new(count as nat, |i: int| (u64::MAX - 1) as u64),
{
    let r = vec![0xffff_ffff_ffff_fffe; count];
    assert(r@ =~= Seq::new(count as nat, |i: int| (u64::MAX - 1) as u64));
    r
}

impl FramebufferBlitter {
    pub fn snapshot(&self, out: &mut Writer)
        requires
            self@.wf(),
        ensures
            final(out)@ == old(out)@ + enc_section(SNAPSHOT_VERSION, self@.encoding()),
    {
        let mut w = Writer::new();
        w.u32s(self.registers.as_slice());
        w.bytes(self.front.as_slice());
        w.u64(self.presents);
        w.u32(self.active.0);
        w.u32(self.active.1);
        w.u32(self.pending.0);
        w.u32(self.pending.1);
        assert(w@ =~= self@.encoding());
        proof {
            lemma_encoding_len(self@);
        }
        out.section(SNAPSHOT_VERSION, &w);
    }

    /// Take the state back from a snapshot. Data that does not parse leaves
    /// the blitter as it was.
    #[verifier::rlimit(40)]
    pub fn restore(&mut self, input: &mut Reader<'_>) -> (r: Result<(), RestoreError>)
        requires
            old(self)@.wf(),
            old(input).wf(),
        ensures
            final(self)@.wf(),
            final(input).wf(),
            match and_section(start(old(input).rest()), SNAPSHOT_VERSION) {
                Err(e) => r == Err::<(), RestoreError>(e) && *final(self) == *old(self),
                Ok(((_, payload), rest)) => final(input).rest() == rest
                    && match BlitterState::decoded(payload) {
                    Err(e) => r == Err::<(), RestoreError>(e) && *final(self) == *old(self),
                    Ok(st) => r is Ok && final(self)@ == st,
                },
            },
    {
        let mut section = input.section(SNAPSHOT_VERSION)?;
        let words = section.u32s(7)?;
        let front = section.bytes()?;
        if front.len() != 0 && front.len() != FB_BYTES as usize {
            return Err(RestoreError::FramebufferSize);
        }
        let presents: u64 = section.u64()?;
        let width: u32 = section.u32()?;
        let height: u32 = section.u32()?;
        if !valid_size((width, height)) {
            return Err(RestoreError::FramebufferGeometry);
        }
        let next_width: u32 = section.u32()?;
        let next_height: u32 = section.u32()?;
        if !valid_size((next_width, next_height)) {
            return Err(RestoreError::PendingGeometry);
        }
        section.finish()?;
        self.registers = [words[0], words[1], words[2], words[3], words[4], words[5], words[6]];
        assert(self.registers@ =~= words@);
        self.generations = stale_rows(
            if front.len() == 0 {
                0
            } else {
                2048
            },
        );
        self.front = copy_slice(front);
        self.presents = presents;
        self.active = (width, height);
        self.pending = (next_width, next_height);
        self.requested = self.pending;
        self.geometry_changed = true;
        Ok(())
    }
}

proof fn lemma_encoding_len(b: BlitterState)
    requires
        b.wf(),
    ensures
        b.encoding().len() == 56 + b.front.len(),
{
    lemma_enc_u32s_len(b.registers);
    crate::le::lemma_le_bytes_len(b.front.len(), 4);
    lemma_read_u64((), b.presents, Seq::empty());
    lemma_read_u32((), b.active.0, Seq::empty());
    lemma_read_u32((), b.active.1, Seq::empty());
    lemma_read_u32((), b.pending.0, Seq::empty());
    lemma_read_u32((), b.pending.1, Seq::empty());
}

/// Reading a snapshot back gives the registers, frame and sizes it was taken
/// from.
#[verifier::rlimit(40)]
pub proof fn law_snapshot_round_trip(b: BlitterState, tail: Seq<u8>)
    requires
        b.wf(),
    ensures
        and_section(start(enc_section(SNAPSHOT_VERSION, b.encoding()) + tail), SNAPSHOT_VERSION)
            == Parsed::<((), Seq<u8>)>::Ok((((), b.encoding()), tail)),
        BlitterState::decoded(b.encoding()) == Ok::<BlitterState, RestoreError>(b.resumed()),
{
    lemma_encoding_len(b);
    lemma_read_section((), SNAPSHOT_VERSION, b.encoding(), tail);
    let t6 = Seq::<u8>::empty();
    let t5 = enc_u32(b.pending.1) + t6;
    let t4 = enc_u32(b.pending.0) + t5;
    let t3 = enc_u32(b.active.1) + t4;
    let t2 = enc_u32(b.active.0) + t3;
    let t1 = enc_u64(b.presents) + t2;
    let t0 = enc_bytes(b.front) + t1;
    assert(b.encoding() =~= enc_u32s(b.registers) + t0);
    lemma_read_u32s((), b.registers, t0);
    lemma_read_bytes(((), b.registers), b.front, t1);
    lemma_read_u64((), b.presents, t2);
    lemma_read_u32(((), b.presents), b.active.0, t3);
    lemma_read_u32((((), b.presents), b.active.0), b.active.1, t4);
    lemma_read_u32((), b.pending.0, t5);
    lemma_read_u32(((), b.pending.0), b.pending.1, t6);
    let d = BlitterState {
        registers: b.registers,
        front: b.front,
        presents: b.presents,
        active: b.active,
        pending: b.pending,
        ..BlitterState::fresh()
    };
    assert(d.resumed() =~= b.resumed());
}

/// The first frame presented is the framebuffer as RAM holds it. A later one
/// takes from RAM the scanlines whose write count moved and keeps the others.
/// Presenting counts, makes a size that was asked for the one shown, and tells
/// whether that changed; RAM stays.
pub proof fn law_presenting(s: BlitterState, ram: RamState, i: int)
    requires
        has_framebuffer(ram),
        0 <= i < FB_BYTES,
    ensures
        ({
            let (r, t, ram2) = s.executed(3, ram);
            &&& r is Ok
            &&& ram2 == ram
            &&& t.front.len() == FB_BYTES
            &&& s.front.len() == 0 ==> t.front[i] == ram.bytes[FB_RAM_OFFSET + i]
            &&& row_generation(ram, i / 8192) != s.generations[i / 8192] ==> t.front[i]
                == ram.bytes[FB_RAM_OFFSET + i]
            &&& s.front.len() != 0 && row_generation(ram, i / 8192) == s.generations[i / 8192]
                ==> t.front[i] == s.front[i]
            &&& t.generations[i / 8192] == row_generation(ram, i / 8192)
            &&& t.active == s.pending
            &&& t.presents == s.presents.wrapping_add(1)
            &&& s.active != s.pending ==> t.geometry_changed
            &&& s.active == s.pending ==> t.geometry_changed == s.geometry_changed
        }),
{
    assert(0 <= i / 8192 < 2048);
}

/// Without a frame to keep, presenting is a copy of the framebuffer; dropping
/// the frame brings that back.
pub proof fn law_dropped_frame_is_taken_anew(s: BlitterState, ram: RamState, i: int)
    requires
        has_framebuffer(ram),
        0 <= i < FB_BYTES,
    ensures
        s.executed(4, ram).0 is Ok,
        s.executed(4, ram).2 == ram,
        s.executed(4, ram).1.executed(3, ram).1.front[i] == ram.bytes[FB_RAM_OFFSET + i],
{
}

/// A size is width below height in its register; those from 320 by 200 up to
/// the largest are taken, and shown from the next frame on. Commands other
/// than the four are refused and change nothing.
pub proof fn law_sizes_and_commands(
    s: BlitterState,
    ram: RamState,
    width: u32,
    height: u32,
    command: u32,
)
    requires
        width < 0x1_0000,
        height < 0x1_0000,
    ensures
        ({
            let value = (width + height * 0x1_0000) as u64;
            &&& BlitterState::accepts(40, value, 4) == (320 <= width <= FB_MAX_WIDTH && 200 <= height
                <= FB_MAX_HEIGHT)
            &&& s.written(40, value, ram).0.pending == (width, height)
            &&& s.written(40, value, ram).0.active == s.active
            &&& s.written(40, value, ram).1 == ram
        }),
        command == 0 || command > 4 ==> s.executed(command, ram) == (Err::<(), ()>(()), s, ram),
{
}

/// Filling with every bit kept and the same bits inverted, twice, leaves the
/// bytes as they were.
pub proof fn law_inverting_twice_restores(
    ram: RamState,
    offset: int,
    width: int,
    height: int,
    xor: u32,
    at: int,
)
    requires
        0 <= at < ram.bytes.len(),
    ensures
        ({
            let once = painted(
                ram,
                offset,
                width,
                0,
                height,
                filled(ram, offset, 0xffff_ffff, xor),
            );
            let twice = painted(
                once,
                offset,
                width,
                0,
                height,
                filled(once, offset, 0xffff_ffff, xor),
            );
            &&& twice.bytes[at] == ram.bytes[at]
            &&& !in_rows(offset, width, 0, height, at) ==> once.bytes[at] == ram.bytes[at]
        }),
{
    let (b, m) = (ram.bytes[at], byte_of(xor, lane(offset, at)));
    assert((((b & 0xff) ^ m) & 0xff) ^ m == b) by (bit_vector);
    assert(byte_of(0xffff_ffff, lane(offset, at)) == 0xff);
}

} // verus!
