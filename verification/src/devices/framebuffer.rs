//! RAM-backed scanout with page-generation tracking for dirty rows.
use vstd::prelude::*;

use crate::bus::DRAM_BASE;

verus! {

/// Boot width, in pixels.
pub const FB_WIDTH: u32 = 1024;

/// Boot height, in pixels.
pub const FB_HEIGHT: u32 = 768;

/// Fixed backing stride; each scanline spans two RAM pages.
pub const FB_STRIDE: u32 = 8192;

pub const FB_MAX_WIDTH: u32 = 2048;

pub const FB_MAX_HEIGHT: u32 = 2048;

pub const FB_PAGES_PER_ROW: usize = 2;

/// Bytes per pixel; the format is `x8r8g8b8`, i.e. B,G,R,X in memory order.
pub const FB_BYTES_PER_PIXEL: u32 = 4;

/// Backing storage for the largest supported mode.
pub const FB_BYTES: u64 = 16 * 1024 * 1024;

/// Reserved scanout RAM, excluded from the guest allocator.
pub const FB_RESERVED_BYTES: u64 = 16 * 1024 * 1024;

/// Total DRAM of the machines that carry a display. The framebuffer is carved
/// out of the top of this, and the DTB's `memory` node is shrunk to match.
pub const FB_MACHINE_RAM_BYTES: u64 = 128 * 1024 * 1024;

/// Guest physical address of pixel (0, 0): the top of DRAM, less the reserved
/// window: 0x8700_0000.
pub const FB_BASE: u64 = DRAM_BASE + FB_MACHINE_RAM_BYTES - FB_RESERVED_BYTES;

/// The `format` string of the `simple-framebuffer` node.
pub const FB_FORMAT: &'static str = "x8r8g8b8";

/// Offset of the framebuffer inside DRAM.
pub const FB_RAM_OFFSET: u64 = FB_BASE - DRAM_BASE;

/// Index of the RAM page holding row 0.
pub const FB_FIRST_PAGE: u64 = FB_RAM_OFFSET / 4096;

/// Bytes one row occupies in a host RGBA buffer.
pub const FB_ROW_RGBA_BYTES: usize = 4096;

/// The geometry constants agree: a stride is a row of the widest mode and a
/// whole number of pages, and the backing store fits the reserved window.
pub proof fn law_geometry_is_consistent()
    ensures
        FB_STRIDE == FB_MAX_WIDTH * FB_BYTES_PER_PIXEL,
        FB_STRIDE == 4096 * FB_PAGES_PER_ROW,
        FB_BYTES == FB_STRIDE * FB_MAX_HEIGHT,
        FB_BYTES <= FB_RESERVED_BYTES,
        FB_ROW_RGBA_BYTES == FB_WIDTH * FB_BYTES_PER_PIXEL,
        FB_BASE == 0x8700_0000,
        FB_RAM_OFFSET % 8192 == 0,
{
}

/// A host's view of which framebuffer rows have changed.
///
/// Holds the write generation each row had the last time the host was told
/// about it. A generation of [`u64::MAX`] is the "never seen" sentinel — a
/// real page generation cannot reach it — so a fresh tracker, or one that has
/// been [`FramebufferView::mark_all_dirty`]ed after a snapshot restore,
/// reports every row once.
pub struct FramebufferView {
    pub seen: Vec<u64>,
}

impl View for FramebufferView {
    type V = Seq<u64>;

    open spec fn view(&self) -> Seq<u64> {
        self.seen@
    }
}

/// The tracker that has seen nothing.
pub open spec fn never_seen() -> Seq<u64> {
    Seq::new(2048, |i: int| u64::MAX)
}

/// The rows below `n` whose generation differs from the one last seen, in
/// ascending order.
pub open spec fn changed_rows(seen: Seq<u64>, generations: Seq<u64>, n: nat) -> Seq<u32>
    decreases n,
{
    if n == 0 {
        Seq::empty()
    } else {
        let before = changed_rows(seen, generations, (n - 1) as nat);
        if generations[n - 1] != seen[n - 1] {
            before.push((n - 1) as u32)
        } else {
            before
        }
    }
}

/// How many rows a scan covers.
pub open spec fn rows_scanned(seen: Seq<u64>, generations: Seq<u64>) -> nat {
    if generations.len() < seen.len() {
        generations.len()
    } else {
        seen.len()
    }
}

/// The tracker after a scan.
pub open spec fn adopted(seen: Seq<u64>, generations: Seq<u64>) -> Seq<u64> {
    Seq::new(
        seen.len(),
        |i: int|
            if i < generations.len() {
                generations[i]
            } else {
                seen[i]
            },
    )
}

impl FramebufferView {
    pub open spec fn wf(self) -> bool {
        self@.len() == 2048
    }

    pub fn new() -> (r: Self)
        ensures
            r.wf(),
            r@ == never_seen(),
    {
        let r = Self { seen: vec![u64::MAX; 2048] };
        assert(r@ =~= never_seen());
        r
    }

    /// Forget everything, so the next scan reports all [`FB_HEIGHT`] rows.
    /// Used after a snapshot restore, where the RAM underneath was replaced
    /// wholesale and the host's canvas holds the wrong picture.
    pub fn mark_all_dirty(&mut self)
        requires
            old(self).wf(),
        ensures
            final(self).wf(),
            final(self)@ == never_seen(),
    {
        let mut i: usize = 0;
        while i < self.seen.len()
            invariant
                self.seen@.len() == 2048,
                forall|k: int| 0 <= k < i ==> self.seen@[k] == u64::MAX,
            decreases self.seen@.len() - i,
        {
            self.seen[i] = u64::MAX;
            i = i + 1;
        }
        assert(self@ =~= never_seen());
    }

    /// Append the rows whose generation changed since the last scan to `out`,
    /// in ascending order, and adopt the new generations.
    ///
    /// Each generation combines the pages in one active scanline.
    pub fn scan(&mut self, generations: &[u64], out: &mut Vec<u32>)
        requires
            old(self).wf(),
        ensures
            final(self).wf(),
            final(self)@ == adopted(old(self)@, generations@),
            final(out)@ == old(out)@ + changed_rows(
                old(self)@,
                generations@,
                rows_scanned(old(self)@, generations@),
            ),
    {
        let mut row: usize = 0;
        assert(old(out)@ + changed_rows(old(self)@, generations@, 0) =~= old(out)@);
        while row < generations.len() && row < self.seen.len()
            invariant
                old(self)@.len() == 2048,
                self.seen@.len() == 2048,
                row <= generations@.len(),
                row <= 2048,
                forall|k: int| 0 <= k < row ==> self.seen@[k] == generations@[k],
                forall|k: int| row <= k < 2048 ==> self.seen@[k] == old(self)@[k],
                out@ == old(out)@ + changed_rows(old(self)@, generations@, row as nat),
            decreases 2048 - row,
        {
            let generation: u64 = generations[row];
            let ghost before = out@;
            if generation != self.seen[row] {
                self.seen[row] = generation;
                out.push(row as u32);
            }
            row = row + 1;
            assert(out@ =~= old(out)@ + changed_rows(old(self)@, generations@, row as nat));
        }
        assert(self@ =~= adopted(old(self)@, generations@));
    }
}

impl Default for FramebufferView {
    fn default() -> (r: Self)
        ensures
            r.wf(),
            r@ == never_seen(),
    {
        Self::new()
    }
}

proof fn lemma_nothing_changed(seen: Seq<u64>, generations: Seq<u64>, n: nat)
    requires
        forall|i: int| 0 <= i < n ==> seen[i] == generations[i],
    ensures
        changed_rows(seen, generations, n) == Seq::<u32>::empty(),
    decreases n,
{
    if n > 0 {
        lemma_nothing_changed(seen, generations, (n - 1) as nat);
    }
}

proof fn lemma_everything_changed(seen: Seq<u64>, generations: Seq<u64>, n: nat)
    requires
        forall|i: int| 0 <= i < n ==> seen[i] != generations[i],
    ensures
        changed_rows(seen, generations, n) == Seq::new(n, |i: int| i as u32),
    decreases n,
{
    if n > 0 {
        lemma_everything_changed(seen, generations, (n - 1) as nat);
        assert(Seq::new(n, |i: int| i as u32) =~= Seq::new((n - 1) as nat, |i: int| i as u32).push(
            (n - 1) as u32,
        ));
    }
}

/// A fresh or wholly dirty view reports every row.
pub proof fn law_fresh_view_reports_every_row(generations: Seq<u64>)
    requires
        forall|i: int| 0 <= i < generations.len() ==> generations[i] != u64::MAX,
        generations.len() <= 2048,
    ensures
        changed_rows(never_seen(), generations, generations.len()) == Seq::new(
            generations.len(),
            |i: int| i as u32,
        ),
{
    lemma_everything_changed(never_seen(), generations, generations.len());
}

/// A second scan of the same generations reports no row.
pub proof fn law_each_change_reported_once(seen: Seq<u64>, generations: Seq<u64>)
    ensures
        changed_rows(
            adopted(seen, generations),
            generations,
            rows_scanned(adopted(seen, generations), generations),
        ) == Seq::<u32>::empty(),
{
    lemma_nothing_changed(
        adopted(seen, generations),
        generations,
        rows_scanned(adopted(seen, generations), generations),
    );
}

proof fn lemma_rows(seen: Seq<u64>, generations: Seq<u64>, n: nat, row: u32)
    requires
        n <= u32::MAX,
    ensures
        changed_rows(seen, generations, n).contains(row) <==> (row < n && generations[row as int]
            != seen[row as int]),
    decreases n,
{
    if n > 0 {
        lemma_rows(seen, generations, (n - 1) as nat, row);
        let before = changed_rows(seen, generations, (n - 1) as nat);
        let all = changed_rows(seen, generations, n);
        if generations[n - 1] != seen[n - 1] {
            assert(all == before.push((n - 1) as u32));
            assert(all[before.len() as int] == (n - 1) as u32);
            if before.contains(row) {
                let i = choose|i: int| 0 <= i < before.len() && before[i] == row;
                assert(all[i] == row);
            }
            if all.contains(row) {
                let i = choose|i: int| 0 <= i < all.len() && all[i] == row;
                if i < before.len() {
                    assert(before[i] == row);
                }
            }
        }
    }
}

/// A scan reports exactly the rows whose generation moved.
pub proof fn law_scan_reports_changed_rows(seen: Seq<u64>, generations: Seq<u64>, row: u32)
    requires
        seen.len() == 2048,
    ensures
        changed_rows(seen, generations, rows_scanned(seen, generations)).contains(row) <==> (row
            < seen.len() && row < generations.len() && generations[row as int]
            != seen[row as int]),
{
    lemma_rows(seen, generations, rows_scanned(seen, generations), row);
}

/// Pixels both buffers have room for.
pub open spec fn pixels(src: nat, dst: nat) -> nat {
    (if src < dst {
        src
    } else {
        dst
    }) / 4
}

/// The destination bytes after a scanline is converted: B,G,R,X becomes
/// R,G,B,0xff, and bytes past the last whole pixel stay as they were.
pub open spec fn converted(src: Seq<u8>, dst: Seq<u8>) -> Seq<u8> {
    Seq::new(
        dst.len(),
        |i: int|
            if i >= 4 * pixels(src.len(), dst.len()) {
                dst[i]
            } else if i % 4 == 3 {
                0xff
            } else {
                src[i / 4 * 4 + 2 - i % 4]
            },
    )
}

/// Convert one `x8r8g8b8` scanline (B,G,R,X in memory) into RGBA, the byte
/// order a canvas `ImageData` wants.
///
/// Done on the host rather than in the guest: `simpledrm`'s native plane
/// format is XRGB8888; host conversion avoids guest software conversion.
pub fn row_to_rgba(src: &[u8], dst: &mut [u8])
    ensures
        final(dst)@ == converted(src@, old(dst)@),
{
    let shorter: usize = if src.len() < dst.len() {
        src.len()
    } else {
        dst.len()
    };
    let count: usize = shorter / 4;
    let mut p: usize = 0;
    while p < count
        invariant
            p <= count,
            count == pixels(src@.len(), old(dst)@.len()),
            dst@.len() == old(dst)@.len(),
            4 * count <= src.len(),
            4 * count <= dst@.len(),
            forall|i: int| 0 <= i < 4 * p ==> dst@[i] == converted(src@, old(dst)@)[i],
            forall|i: int| 4 * p <= i < dst@.len() ==> dst@[i] == old(dst)@[i],
        decreases count - p,
    {
        dst[4 * p] = src[4 * p + 2];
        dst[4 * p + 1] = src[4 * p + 1];
        dst[4 * p + 2] = src[4 * p];
        dst[4 * p + 3] = 0xff;
        p = p + 1;
    }
    assert(dst@ =~= converted(src@, old(dst)@));
}

} // verus!
