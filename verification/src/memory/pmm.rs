//! Physical memory manager: one bit per 4 KiB page frame, set while the frame
//! is in use, built from the boot loader's memory map.
use vstd::prelude::*;

verus! {

/// Size of a physical page frame in bytes.
pub const PAGE_SIZE: usize = 4096;

/// Frames below this physical address are never handed out.
pub const LOW_MEMORY_LIMIT: usize = 0x10_0000;

/// One entry of the boot loader's memory map.
#[derive(Clone, Copy, Debug)]
pub struct MemRegion {
    pub base: u64,
    pub length: u64,
    /// Whether the boot loader reports the region as freely usable RAM.
    pub usable: bool,
}

/// Where the frame bitmap lives and how many frames it tracks.
#[derive(Clone, Copy, Debug)]
pub struct PmmLayout {
    /// One past the highest physical address named by the memory map.
    pub highest: u64,
    pub total_pages: usize,
    pub bitmap_bytes: usize,
    pub bitmap_pages: usize,
    /// Physical address of the bitmap (page aligned).
    pub bitmap_phys: usize,
}

/// Why a memory map cannot be turned into a physical memory manager.
#[derive(Clone, Copy, Debug, PartialEq, Eq)]
pub enum PmmInitError {
    /// A region's end, or the highest address rounded up to a page, does not fit.
    AddressOverflow,
    /// No region ends above address zero.
    EmptyMemoryMap,
    /// No usable region can hold the bitmap at a page-aligned address.
    NoRoomForBitmap,
}

/// The physical memory manager.
pub struct Pmm {
    bitmap: Vec<u8>,
    bitmap_phys: usize,
    bitmap_pages: usize,
    total_pages: usize,
    free_count: usize,
    usable_pages: usize,
}

// ---------------------------------------------------------------- specs

pub open spec fn region_end(r: MemRegion) -> int {
    r.base + r.length
}

/// Largest region end in the map (0 for an empty map).
pub open spec fn highest_end(regions: Seq<MemRegion>) -> int
    decreases regions.len(),
{
    if regions.len() == 0 {
        0
    } else {
        let h = highest_end(regions.drop_last());
        let e = region_end(regions.last());
        if e > h {
            e
        } else {
            h
        }
    }
}

/// `x` rounded up to a multiple of the page size.
pub open spec fn align_up_page(x: int) -> int {
    (x + 4095) / 4096 * 4096
}

/// The first page-aligned address of region `r` other than address 0.
pub open spec fn region_site(r: MemRegion) -> int {
    if align_up_page(r.base as int) == 0 {
        4096
    } else {
        align_up_page(r.base as int)
    }
}

/// The bitmap's place, scanning usable regions in order: the first
/// page-aligned, non-zero address where `bytes` bytes fit inside a region
/// that is itself at least `bytes` long; 0 when there is none.
pub open spec fn bitmap_site_from(regions: Seq<MemRegion>, bytes: int, i: int) -> int
    decreases regions.len() - i,
{
    if i < 0 || i >= regions.len() {
        0
    } else {
        let r = regions[i];
        if r.usable && r.length >= bytes && region_end(r) >= region_site(r) + bytes {
            region_site(r)
        } else {
            bitmap_site_from(regions, bytes, i + 1)
        }
    }
}

pub open spec fn ends_fit(regions: Seq<MemRegion>) -> bool {
    forall|i: int| 0 <= i < regions.len() ==> region_end(#[trigger] regions[i]) <= u64::MAX
}

/// The layout that `plan_pmm` computes for a map whose addresses fit.
pub open spec fn layout_of(regions: Seq<MemRegion>) -> PmmLayout {
    let h = highest_end(regions);
    let total = (h + 4095) / 4096;
    let bytes = (total + 7) / 8;
    PmmLayout {
        highest: h as u64,
        total_pages: total as usize,
        bitmap_bytes: bytes as usize,
        bitmap_pages: ((bytes + 4095) / 4096) as usize,
        bitmap_phys: bitmap_site_from(regions, bytes, 0) as usize,
    }
}

/// What `plan_pmm` returns.
pub open spec fn plan_result(regions: Seq<MemRegion>) -> Result<PmmLayout, PmmInitError> {
    if !ends_fit(regions) {
        Err(PmmInitError::AddressOverflow)
    } else if highest_end(regions) == 0 {
        Err(PmmInitError::EmptyMemoryMap)
    } else if highest_end(regions) > usize::MAX - 4095 {
        Err(PmmInitError::AddressOverflow)
    } else if layout_of(regions).bitmap_phys == 0 {
        Err(PmmInitError::NoRoomForBitmap)
    } else {
        Ok(layout_of(regions))
    }
}

/// Usable regions never share a byte (the boot protocol's promise).
pub open spec fn usable_regions_disjoint(regions: Seq<MemRegion>) -> bool {
    forall|i: int, j: int|
        0 <= i < regions.len() && 0 <= j < regions.len() && i != j && (#[trigger] regions[i]).usable
            && (#[trigger] regions[j]).usable ==> region_end(regions[i]) <= regions[j].base
            || region_end(regions[j]) <= regions[i].base
}

/// Region `j` hands frame `q` to the allocator at boot.
pub open spec fn page_freed_by(regions: Seq<MemRegion>, l: PmmLayout, j: int, q: int) -> bool {
    &&& 0 <= j < regions.len()
    &&& regions[j].usable
    &&& (regions[j].base + 4095) / 4096 <= q < region_end(regions[j]) / 4096
    &&& q * 4096 != 0
    &&& q * 4096 >= LOW_MEMORY_LIMIT
    &&& !(l.bitmap_phys <= q * 4096 < l.bitmap_phys + l.bitmap_pages * 4096)
    &&& q < l.total_pages
}

/// Some region hands frame `q` to the allocator at boot.
pub open spec fn initially_free(regions: Seq<MemRegion>, l: PmmLayout, q: int) -> bool {
    exists|j: int| #[trigger] page_freed_by(regions, l, j, q)
}

spec fn freed_prefix(regions: Seq<MemRegion>, l: PmmLayout, i: int, q: int) -> bool {
    exists|j: int| 0 <= j < i && #[trigger] page_freed_by(regions, l, j, q)
}

/// Bit `j` of byte `b`.
pub open spec fn bit(b: u8, j: u8) -> bool {
    (b >> j) & 1u8 == 1u8
}

/// The in-use flag of each of the first `total` frames, as the bitmap holds it.
pub open spec fn used_flags(bm: Seq<u8>, total: nat) -> Seq<bool> {
    Seq::new(total, |q: int| bit(bm[q / 8], (q % 8) as u8))
}

/// Number of `false` (free) entries.
pub open spec fn count_free(s: Seq<bool>) -> nat
    decreases s.len(),
{
    if s.len() == 0 {
        0
    } else {
        count_free(s.drop_last()) + if s.last() {
            0nat
        } else {
            1nat
        }
    }
}

/// The lowest free frame at or after `i`.
pub open spec fn first_free(s: Seq<bool>, i: int) -> Option<int>
    decreases s.len() - i,
{
    if i < 0 || i >= s.len() {
        None
    } else if !s[i] {
        Some(i)
    } else {
        first_free(s, i + 1)
    }
}

/// `first_free` finds the lowest free frame, and none when all are in use.
pub proof fn lemma_first_free(s: Seq<bool>, i: int)
    requires
        0 <= i,
    ensures
        first_free(s, i) matches Some(p) ==> i <= p < s.len() && !s[p] && forall|q: int|
            i <= q < p ==> #[trigger] s[q],
        first_free(s, i) is None ==> forall|q: int| i <= q < s.len() ==> #[trigger] s[q],
    decreases s.len() - i,
{
    if i < s.len() {
        lemma_first_free(s, i + 1);
    }
}

/// A free frame below which every frame is in use is the lowest free frame.
pub proof fn lemma_first_free_is(s: Seq<bool>, p: int)
    requires
        0 <= p < s.len(),
        !s[p],
        forall|q: int| 0 <= q < p ==> #[trigger] s[q],
    ensures
        first_free(s, 0) == Some(p),
{
    lemma_first_free(s, 0);
    if let Some(k) = first_free(s, 0) {
        if k < p {
            assert(s[k]);
        }
        if p < k {
            assert(s[p]);
        }
    }
}

impl Pmm {
    /// The in-use flag of every tracked frame.
    pub closed spec fn used(&self) -> Seq<bool> {
        used_flags(self.bitmap@, self.total_pages as nat)
    }

    pub closed spec fn total(&self) -> nat {
        self.total_pages as nat
    }

    pub closed spec fn free_pages(&self) -> nat {
        self.free_count as nat
    }

    pub closed spec fn usable(&self) -> nat {
        self.usable_pages as nat
    }

    pub closed spec fn bitmap_range(&self) -> (int, int) {
        (self.bitmap_phys as int, self.bitmap_phys + self.bitmap_pages * 4096)
    }

    /// The counters agree with the bitmap and all page addresses fit a `usize`.
    pub closed spec fn wf(&self) -> bool {
        &&& self.bitmap@.len() == (self.total_pages + 7) / 8
        &&& self.total_pages * PAGE_SIZE <= usize::MAX
        &&& self.usable_pages <= self.total_pages
        &&& self.free_count == count_free(self.used())
    }

    pub proof fn lemma_wf_bounds(&self)
        requires
            self.wf(),
        ensures
            self.used().len() == self.total(),
            self.free_pages() <= self.total(),
            self.usable() <= self.total(),
            self.total() * 4096 <= usize::MAX,
            self.free_pages() == count_free(self.used()),
    {
        lemma_count_free_le(self.used());
    }
}

// ---------------------------------------------------------------- lemmas

pub proof fn lemma_count_free_le(s: Seq<bool>)
    ensures
        count_free(s) <= s.len(),
    decreases s.len(),
{
    if s.len() > 0 {
        lemma_count_free_le(s.drop_last());
    }
}

/// Changing one flag changes the free count by the difference it makes.
pub proof fn lemma_count_free_update(s: Seq<bool>, p: int, b: bool)
    requires
        0 <= p < s.len(),
    ensures
        count_free(s.update(p, b)) + (if s[p] {
            0int
        } else {
            1int
        }) == count_free(s) + (if b {
            0int
        } else {
            1int
        }),
    decreases s.len(),
{
    let t = s.update(p, b);
    if p == s.len() - 1 {
        assert(t.drop_last() =~= s.drop_last());
    } else {
        assert(t.drop_last() =~= s.drop_last().update(p, b));
        lemma_count_free_update(s.drop_last(), p, b);
    }
}

pub proof fn lemma_count_all_used(s: Seq<bool>)
    requires
        forall|i: int| 0 <= i < s.len() ==> s[i],
    ensures
        count_free(s) == 0,
    decreases s.len(),
{
    if s.len() > 0 {
        lemma_count_all_used(s.drop_last());
    }
}

proof fn lemma_bit_set_clear(b: u8, k: u8, j: u8)
    requires
        k < 8,
        j < 8,
    ensures
        bit(b | (1u8 << k), j) == (j == k || bit(b, j)),
        bit(b & !(1u8 << k), j) == (j != k && bit(b, j)),
        bit(0xffu8, j),
{
    assert(((b | (1u8 << k)) >> j) & 1u8 == 1u8 <==> (j == k || (b >> j) & 1u8 == 1u8))
        by (bit_vector)
        requires
            k < 8,
            j < 8,
    ;
    assert(((b & !(1u8 << k)) >> j) & 1u8 == 1u8 <==> (j != k && (b >> j) & 1u8 == 1u8))
        by (bit_vector)
        requires
            k < 8,
            j < 8,
    ;
    assert((0xffu8 >> j) & 1u8 == 1u8) by (bit_vector)
        requires
            j < 8,
    ;
}

/// Writing a byte that differs from the old one only in frame `p`'s bit
/// changes only frame `p`'s flag.
proof fn lemma_used_after_write(bm: Seq<u8>, total: nat, p: int, nb: u8, val: bool)
    requires
        0 <= p < total,
        bm.len() == (total + 7) / 8,
        forall|j: u8| j < 8 ==> #[trigger] bit(nb, j) == (if j == (p % 8) as u8 {
            val
        } else {
            bit(bm[p / 8], j)
        }),
    ensures
        used_flags(bm.update(p / 8, nb), total) =~= used_flags(bm, total).update(p, val),
{
    let nbm = bm.update(p / 8, nb);
    assert forall|q: int| 0 <= q < total implies #[trigger] used_flags(nbm, total)[q]
        == used_flags(bm, total).update(p, val)[q] by {
        if q / 8 == p / 8 {
            let jq = (q % 8) as u8;
            assert(bit(nb, jq) == (if jq == (p % 8) as u8 {
                val
            } else {
                bit(bm[p / 8], jq)
            }));
            if q != p {
                assert(q % 8 != p % 8);
            }
        }
    }
}

proof fn lemma_end_le_highest(regions: Seq<MemRegion>, i: int)
    requires
        0 <= i < regions.len(),
    ensures
        region_end(regions[i]) <= highest_end(regions),
        highest_end(regions) >= 0,
    decreases regions.len(),
{
    if i < regions.len() - 1 {
        assert(regions.drop_last()[i] == regions[i]);
        lemma_end_le_highest(regions.drop_last(), i);
    } else if regions.len() > 1 {
        lemma_end_le_highest(regions.drop_last(), 0);
    }
}

proof fn lemma_shared_page_overlaps(r1: MemRegion, r2: MemRegion, p: int)
    requires
        (r1.base + 4095) / 4096 <= p < region_end(r1) / 4096,
        (r2.base + 4095) / 4096 <= p < region_end(r2) / 4096,
    ensures
        !(region_end(r1) <= r2.base || region_end(r2) <= r1.base),
{
    let b1 = r1.base as int;
    let b2 = r2.base as int;
    let e1 = region_end(r1);
    let e2 = region_end(r2);
    assert(b1 <= p * 4096 && p * 4096 + 4096 <= e1) by (nonlinear_arith)
        requires
            (b1 + 4095) / 4096 <= p < e1 / 4096,
            b1 >= 0,
    ;
    assert(b2 <= p * 4096 && p * 4096 + 4096 <= e2) by (nonlinear_arith)
        requires
            (b2 + 4095) / 4096 <= p < e2 / 4096,
            b2 >= 0,
    ;
}

proof fn lemma_align_up(x: usize)
    requires
        x <= usize::MAX - 4095,
    ensures
        ((x + 4095) as usize) & !4095usize == align_up_page(x as int),
        align_up_page(x as int) >= x,
        align_up_page(x as int) <= x + 4095,
{
    let y: usize = (x + 4095) as usize;
    assert(y & !4095usize == (y / 4096) * 4096) by (bit_vector);
    assert((y / 4096) * 4096 <= y && y < (y / 4096) * 4096 + 4096) by (nonlinear_arith);
}

// ---------------------------------------------------------------- layout

/// One past the highest address that the memory map names, or `None` when a
/// region's end does not fit in 64 bits.
pub fn highest_address(regions: &[MemRegion]) -> (r: Option<u64>)
    ensures
        r is Some <==> ends_fit(regions@),
        r is Some ==> r->0 == highest_end(regions@),
{
    let mut highest: u64 = 0;
    let mut i: usize = 0;
    while i < regions.len()
        invariant
            0 <= i <= regions.len(),
            ends_fit(regions@.take(i as int)),
            highest == highest_end(regions@.take(i as int)),
        decreases regions.len() - i,
    {
        let r = regions[i];
        assert(regions@.take(i + 1).drop_last() =~= regions@.take(i as int));
        if r.length > u64::MAX - r.base {
            assert(!ends_fit(regions@)) by {
                assert(region_end(regions@[i as int]) > u64::MAX);
            }
            return None;
        }
        let end = r.base + r.length;
        if end > highest {
            highest = end;
        }
        i = i + 1;
        assert(ends_fit(regions@.take(i as int))) by {
            assert forall|k: int| 0 <= k < i implies region_end(
                #[trigger] regions@.take(i as int)[k],
            ) <= u64::MAX by {
                if k < i - 1 {
                    assert(regions@.take(i as int)[k] == regions@.take(i - 1)[k]);
                }
            }
        }
    }
    assert(regions@.take(i as int) =~= regions@);
    Some(highest)
}

/// The first page-aligned address inside a usable region where `bytes`
/// bytes fit, or 0 when there is none.
pub fn bitmap_site(regions: &[MemRegion], bytes: usize) -> (r: usize)
    requires
        ends_fit(regions@),
        highest_end(regions@) <= usize::MAX - 4095,
    ensures
        r == bitmap_site_from(regions@, bytes as int, 0),
{
    let mut i: usize = 0;
    while i < regions.len()
        invariant
            0 <= i <= regions.len(),
            ends_fit(regions@),
            highest_end(regions@) <= usize::MAX - 4095,
            bitmap_site_from(regions@, bytes as int, 0) == bitmap_site_from(
                regions@,
                bytes as int,
                i as int,
            ),
        decreases regions.len() - i,
    {
        let r = regions[i];
        proof {
            lemma_end_le_highest(regions@, i as int);
            assert(r == regions@[i as int]);
            assert(r.base as int <= usize::MAX - 4095);
        }
        if r.usable {
            if r.length as usize >= bytes {
                let base = r.base as usize;
                proof {
                    lemma_align_up(base);
                }
                let aligned = (base + (PAGE_SIZE - 1)) & !(PAGE_SIZE - 1);
                let site = if aligned == 0 {
                    PAGE_SIZE
                } else {
                    aligned
                };
                let end = (r.base + r.length) as usize;
                if end >= site && end - site >= bytes {
                    return site;
                }
            }
        }
        i = i + 1;
    }
    0
}

/// Computes where the frame bitmap goes and how many frames it tracks, or
/// why the memory map cannot be used.
pub fn plan_pmm(regions: &[MemRegion]) -> (r: Result<PmmLayout, PmmInitError>)
    ensures
        r == plan_result(regions@),
{
    let highest = match highest_address(regions) {
        Some(h) => h,
        None => {
            return Err(PmmInitError::AddressOverflow);
        },
    };
    if highest == 0 {
        return Err(PmmInitError::EmptyMemoryMap);
    }
    if highest > (usize::MAX - (PAGE_SIZE - 1)) as u64 {
        return Err(PmmInitError::AddressOverflow);
    }
    assert(highest as int <= usize::MAX - 4095);
    let total_pages = (highest as usize + (PAGE_SIZE - 1)) / PAGE_SIZE;
    let bitmap_bytes = (total_pages + 7) / 8;
    let bitmap_pages = (bitmap_bytes + PAGE_SIZE - 1) / PAGE_SIZE;
    let bitmap_phys = bitmap_site(regions, bitmap_bytes);
    if bitmap_phys == 0 {
        return Err(PmmInitError::NoRoomForBitmap);
    }
    Ok(PmmLayout { highest, total_pages, bitmap_bytes, bitmap_pages, bitmap_phys })
}

proof fn lemma_site_fits(regions: Seq<MemRegion>, bytes: int, i: int)
    requires
        bytes >= 0,
        0 <= i,
    ensures
        bitmap_site_from(regions, bytes, i) == 0 || bitmap_site_from(regions, bytes, i) + bytes
            <= highest_end(regions),
        bitmap_site_from(regions, bytes, i) >= 0,
    decreases regions.len() - i,
{
    if i < regions.len() {
        lemma_end_le_highest(regions, i);
        let r = regions[i];
        assert(align_up_page(r.base as int) >= 0) by (nonlinear_arith)
            requires
                r.base >= 0,
        ;
        lemma_site_fits(regions, bytes, i + 1);
    }
}

// ---------------------------------------------------------------- bitmap

impl Pmm {
    /// Marks frame `page` as in use.
    fn set_used(&mut self, page: usize)
        requires
            old(self).bitmap@.len() == (old(self).total_pages + 7) / 8,
            page < old(self).total_pages,
        ensures
            final(self).bitmap@.len() == old(self).bitmap@.len(),
            final(self).used() == old(self).used().update(page as int, true),
            final(self).total_pages == old(self).total_pages,
            final(self).free_count == old(self).free_count,
            final(self).usable_pages == old(self).usable_pages,
            final(self).bitmap_phys == old(self).bitmap_phys,
            final(self).bitmap_pages == old(self).bitmap_pages,
    {
        let byte = page / 8;
        let bit_idx = (page % 8) as u8;
        let b = self.bitmap[byte];
        let nb = b | (1u8 << bit_idx);
        proof {
            assert forall|j: u8| j < 8 implies #[trigger] bit(nb, j) == (if j == (page % 8) as u8 {
                true
            } else {
                bit(self.bitmap@[page as int / 8], j)
            }) by {
                lemma_bit_set_clear(b, bit_idx, j);
            }
            lemma_used_after_write(self.bitmap@, self.total_pages as nat, page as int, nb, true);
        }
        self.bitmap.set(byte, nb);
    }

    /// Marks frame `page` as free.
    fn set_free(&mut self, page: usize)
        requires
            old(self).bitmap@.len() == (old(self).total_pages + 7) / 8,
            page < old(self).total_pages,
        ensures
            final(self).bitmap@.len() == old(self).bitmap@.len(),
            final(self).used() == old(self).used().update(page as int, false),
            final(self).total_pages == old(self).total_pages,
            final(self).free_count == old(self).free_count,
            final(self).usable_pages == old(self).usable_pages,
            final(self).bitmap_phys == old(self).bitmap_phys,
            final(self).bitmap_pages == old(self).bitmap_pages,
    {
        let byte = page / 8;
        let bit_idx = (page % 8) as u8;
        let b = self.bitmap[byte];
        let nb = b & !(1u8 << bit_idx);
        proof {
            assert forall|j: u8| j < 8 implies #[trigger] bit(nb, j) == (if j == (page % 8) as u8 {
                false
            } else {
                bit(self.bitmap@[page as int / 8], j)
            }) by {
                lemma_bit_set_clear(b, bit_idx, j);
            }
            lemma_used_after_write(self.bitmap@, self.total_pages as nat, page as int, nb, false);
        }
        self.bitmap.set(byte, nb);
    }

    /// Whether frame `page` is in use.
    fn is_used(&self, page: usize) -> (r: bool)
        requires
            self.bitmap@.len() == (self.total_pages + 7) / 8,
            page < self.total_pages,
        ensures
            r == self.used()[page as int],
    {
        let b = self.bitmap[page / 8];
        (b >> ((page % 8) as u8)) & 1u8 == 1u8
    }
}

// ---------------------------------------------------------------- boot

/// Builds the physical memory manager from the boot loader's memory map:
/// every frame starts in use, then each frame that lies wholly inside a
/// usable region, at or above 1 MiB and outside the bitmap's own pages is
/// freed.
pub fn init_pmm(regions: &[MemRegion]) -> (pmm: Pmm)
    requires
        plan_result(regions@) is Ok,
        usable_regions_disjoint(regions@),
    ensures
        pmm.wf(),
        pmm.total() == layout_of(regions@).total_pages,
        pmm.bitmap_range() == (layout_of(regions@).bitmap_phys as int, layout_of(
            regions@,
        ).bitmap_phys + layout_of(regions@).bitmap_pages * 4096),
        forall|q: int|
            0 <= q < pmm.total() ==> #[trigger] pmm.used()[q] == !initially_free(
                regions@,
                layout_of(regions@),
                q,
            ),
        pmm.usable() == pmm.free_pages(),
{
    let layout = plan_pmm(regions).unwrap();
    let ghost l = layout_of(regions@);
    let total = layout.total_pages;
    let site = layout.bitmap_phys;
    proof {
        let h = highest_end(regions@);
        assert(total * 4096 <= usize::MAX) by (nonlinear_arith)
            requires
                total == (h + 4095) / 4096,
                h <= usize::MAX - 4095,
                h >= 0,
        ;
        lemma_site_fits(regions@, layout.bitmap_bytes as int, 0);
        assert(layout.bitmap_pages * 4096 <= layout.bitmap_bytes + 4095) by (nonlinear_arith)
            requires
                layout.bitmap_pages == (layout.bitmap_bytes + 4095) / 4096,
                layout.bitmap_bytes >= 0,
        ;
    }
    let bitmap_end = site + layout.bitmap_pages * PAGE_SIZE;

    let mut bitmap: Vec<u8> = Vec::new();
    let mut k: usize = 0;
    while k < layout.bitmap_bytes
        invariant
            k <= layout.bitmap_bytes,
            bitmap@.len() == k,
            forall|t: int| 0 <= t < k ==> bitmap@[t] == 0xffu8,
        decreases layout.bitmap_bytes - k,
    {
        bitmap.push(0xffu8);
        k = k + 1;
    }
    let mut pmm = Pmm {
        bitmap,
        bitmap_phys: site,
        bitmap_pages: layout.bitmap_pages,
        total_pages: total,
        free_count: 0,
        usable_pages: 0,
    };
    proof {
        assert forall|q: int| 0 <= q < total implies #[trigger] pmm.used()[q] by {
            lemma_bit_set_clear(0, 0, (q % 8) as u8);
        }
        lemma_count_all_used(pmm.used());
    }

    let mut i: usize = 0;
    while i < regions.len()
        invariant
            0 <= i <= regions.len(),
            l == layout_of(regions@),
            plan_result(regions@) is Ok,
            usable_regions_disjoint(regions@),
            total == l.total_pages,
            site == l.bitmap_phys,
            bitmap_end == l.bitmap_phys + l.bitmap_pages * 4096,
            pmm.total_pages == total,
            pmm.bitmap_phys == site,
            pmm.bitmap_pages == l.bitmap_pages,
            pmm.bitmap@.len() == (total + 7) / 8,
            total * 4096 <= usize::MAX,
            pmm.free_count == count_free(pmm.used()),
            pmm.usable_pages == pmm.free_count,
            forall|q: int|
                0 <= q < total ==> (!(#[trigger] pmm.used()[q]) <==> freed_prefix(
                    regions@,
                    l,
                    i as int,
                    q,
                )),
        decreases regions.len() - i,
    {
        let r = regions[i];
        proof {
            lemma_end_le_highest(regions@, i as int);
            assert(r == regions@[i as int]);
        }
        if r.usable {
            let region_start = r.base as usize;
            let region_stop = (r.base + r.length) as usize;
            let first_page = (region_start + (PAGE_SIZE - 1)) / PAGE_SIZE;
            let last_page = region_stop / PAGE_SIZE;
            let mut page = first_page;
            while page < last_page
                invariant
                    0 <= i < regions.len(),
                    r == regions@[i as int],
                    r.usable,
                    region_stop == region_end(r),
                    first_page == (r.base + 4095) / 4096,
                    last_page == region_end(r) / 4096,
                    region_stop <= usize::MAX - 4095,
                    first_page <= page,
                    l == layout_of(regions@),
                    usable_regions_disjoint(regions@),
                    total == l.total_pages,
                    site == l.bitmap_phys,
                    bitmap_end == l.bitmap_phys + l.bitmap_pages * 4096,
                    pmm.total_pages == total,
                    pmm.bitmap_phys == site,
                    pmm.bitmap_pages == l.bitmap_pages,
                    pmm.bitmap@.len() == (total + 7) / 8,
                    total * 4096 <= usize::MAX,
                    pmm.free_count == count_free(pmm.used()),
                    pmm.usable_pages == pmm.free_count,
                    forall|q: int|
                        0 <= q < total ==> (!(#[trigger] pmm.used()[q]) <==> (freed_prefix(
                            regions@,
                            l,
                            i as int,
                            q,
                        ) || (q < page && page_freed_by(regions@, l, i as int, q)))),
                decreases last_page - page,
            {
                assert(page * 4096 <= region_stop) by (nonlinear_arith)
                    requires
                        page < last_page,
                        last_page == region_stop / 4096,
                ;
                let phys = page * PAGE_SIZE;
                if phys != 0 && phys >= LOW_MEMORY_LIMIT && !(phys >= site && phys < bitmap_end)
                    && page < total {
                    proof {
                        assert(page_freed_by(regions@, l, i as int, page as int));
                        if freed_prefix(regions@, l, i as int, page as int) {
                            let j = choose|j: int|
                                0 <= j < i && #[trigger] page_freed_by(
                                    regions@,
                                    l,
                                    j,
                                    page as int,
                                );
                            lemma_shared_page_overlaps(regions@[j], r, page as int);
                            assert(regions@[j].usable);
                        }
                        assert(pmm.used()[page as int]);
                        lemma_count_free_update(pmm.used(), page as int, false);
                        lemma_count_free_le(pmm.used().update(page as int, false));
                    }
                    pmm.set_free(page);
                    pmm.free_count = pmm.free_count + 1;
                    pmm.usable_pages = pmm.usable_pages + 1;
                } else {
                    assert(!page_freed_by(regions@, l, i as int, page as int));
                }
                page = page + 1;
            }
            proof {
                assert forall|q: int| 0 <= q < total implies (!(#[trigger] pmm.used()[q])
                    <==> freed_prefix(regions@, l, i + 1, q)) by {
                    if page_freed_by(regions@, l, i as int, q) {
                        assert(q < page);
                    }
                    if freed_prefix(regions@, l, i + 1, q) && !page_freed_by(
                        regions@,
                        l,
                        i as int,
                        q,
                    ) {
                        let j = choose|j: int|
                            0 <= j < i + 1 && #[trigger] page_freed_by(regions@, l, j, q);
                        assert(freed_prefix(regions@, l, i as int, q));
                    }
                }
            }
        } else {
            proof {
                assert forall|q: int| 0 <= q < total implies (!(#[trigger] pmm.used()[q])
                    <==> freed_prefix(regions@, l, i + 1, q)) by {
                    if freed_prefix(regions@, l, i + 1, q) {
                        let j = choose|j: int|
                            0 <= j < i + 1 && #[trigger] page_freed_by(regions@, l, j, q);
                        assert(freed_prefix(regions@, l, i as int, q));
                    }
                }
            }
        }
        i = i + 1;
    }
    proof {
        lemma_count_free_le(pmm.used());
        assert forall|q: int| 0 <= q < pmm.total() implies #[trigger] pmm.used()[q]
            == !initially_free(regions@, l, q) by {
            if initially_free(regions@, l, q) {
                let j = choose|j: int| #[trigger] page_freed_by(regions@, l, j, q);
                assert(freed_prefix(regions@, l, i as int, q));
            }
        }
    }
    pmm
}

// ---------------------------------------------------------------- frames

/// Hands out the lowest free frame, marking it in use; `None` when every
/// tracked frame is in use.
pub fn alloc_page(pmm: &mut Pmm) -> (r: Option<usize>)
    requires
        old(pmm).wf(),
    ensures
        final(pmm).wf(),
        final(pmm).total() == old(pmm).total(),
        final(pmm).usable() == old(pmm).usable(),
        final(pmm).bitmap_range() == old(pmm).bitmap_range(),
        match r {
            None => {
                &&& forall|q: int| 0 <= q < old(pmm).total() ==> #[trigger] old(pmm).used()[q]
                &&& final(pmm).used() == old(pmm).used()
                &&& final(pmm).free_pages() == old(pmm).free_pages()
            },
            Some(addr) => {
                &&& addr % PAGE_SIZE == 0
                &&& addr / PAGE_SIZE < old(pmm).total()
                &&& !old(pmm).used()[addr as int / 4096]
                &&& forall|q: int| 0 <= q < addr as int / 4096 ==> #[trigger] old(pmm).used()[q]
                &&& final(pmm).used() == old(pmm).used().update(addr as int / 4096, true)
                &&& final(pmm).free_pages() + 1 == old(pmm).free_pages()
            },
        },
{
    let total = pmm.total_pages;
    let len = pmm.bitmap.len();
    let mut byte_idx: usize = 0;
    while byte_idx < len
        invariant
            pmm.wf(),
            *pmm == *old(pmm),
            total == pmm.total_pages,
            len == pmm.bitmap@.len(),
            byte_idx <= len,
            forall|q: int| 0 <= q < total && q < 8 * byte_idx ==> #[trigger] pmm.used()[q],
        decreases len - byte_idx,
    {
        let byte = pmm.bitmap[byte_idx];
        if byte == 0xff {
            proof {
                assert forall|q: int| 0 <= q < total && q < 8 * (byte_idx + 1) implies #[trigger] pmm.used()[q] by {
                    if q >= 8 * byte_idx {
                        assert(q / 8 == byte_idx);
                        lemma_bit_set_clear(0xffu8, 0, (q % 8) as u8);
                    }
                }
            }
            byte_idx = byte_idx + 1;
        } else {
            let bit_idx = byte.trailing_ones() as usize;
            proof {
                vstd::std_specs::bits::axiom_u8_trailing_ones(byte);
            }
            let page = byte_idx * 8 + bit_idx;
            if page >= total {
                proof {
                    assert forall|q: int| 0 <= q < total implies #[trigger] pmm.used()[q] by {
                        if q >= 8 * byte_idx {
                            assert(q / 8 == byte_idx);
                            assert(((q % 8) as u8) < (bit_idx as u8));
                            assert(bit(byte, (q % 8) as u8));
                        }
                    }
                }
                return None;
            }
            proof {
                assert(page / 8 == byte_idx && page % 8 == bit_idx);
                assert(!bit(byte, bit_idx as u8));
                assert(!pmm.used()[page as int]);
                assert forall|q: int| 0 <= q < page implies #[trigger] pmm.used()[q] by {
                    if q >= 8 * byte_idx {
                        assert(q / 8 == byte_idx);
                        assert(((q % 8) as u8) < (bit_idx as u8));
                        assert(bit(byte, (q % 8) as u8));
                    }
                }
                lemma_count_free_update(pmm.used(), page as int, true);
                assert(page * 4096 <= usize::MAX) by (nonlinear_arith)
                    requires
                        page < total,
                        total * 4096 <= usize::MAX,
                ;
            }
            pmm.set_used(page);
            pmm.free_count = pmm.free_count - 1;
            return Some(page * PAGE_SIZE);
        }
    }
    proof {
        assert(8 * len >= total);
    }
    None
}

/// Returns frame `phys` to the free pool.
pub fn free_page(pmm: &mut Pmm, phys: usize)
    requires
        old(pmm).wf(),
        phys % PAGE_SIZE == 0,
        phys / PAGE_SIZE < old(pmm).total(),
        old(pmm).used()[phys as int / 4096],
    ensures
        final(pmm).wf(),
        final(pmm).total() == old(pmm).total(),
        final(pmm).usable() == old(pmm).usable(),
        final(pmm).bitmap_range() == old(pmm).bitmap_range(),
        final(pmm).used() == old(pmm).used().update(phys as int / 4096, false),
        final(pmm).free_pages() == old(pmm).free_pages() + 1,
{
    let page = phys / PAGE_SIZE;
    proof {
        lemma_count_free_update(pmm.used(), page as int, false);
        lemma_count_free_le(pmm.used().update(page as int, false));
    }
    pmm.set_free(page);
    pmm.free_count = pmm.free_count + 1;
}

/// The lowest free frame at or after `from`, if any.
pub fn first_free_from(pmm: &Pmm, from: usize) -> (r: Option<usize>)
    requires
        pmm.wf(),
    ensures
        r == match first_free(pmm.used(), from as int) {
            Some(p) => Some(p as usize),
            None => None::<usize>,
        },
{
    proof {
        pmm.lemma_wf_bounds();
    }
    let total = pmm.total_pages;
    let mut q: usize = from;
    if q >= total {
        return None;
    }
    while q < total
        invariant
            from <= q <= total,
            total == pmm.total(),
            pmm.wf(),
            pmm.used().len() == total,
            first_free(pmm.used(), from as int) == first_free(pmm.used(), q as int),
        decreases total - q,
    {
        if !pmm.is_used(q) {
            return Some(q);
        }
        q = q + 1;
    }
    None
}

/// Whether frame `page` is in use.
pub fn page_in_use(pmm: &Pmm, page: usize) -> (r: bool)
    requires
        pmm.wf(),
        page < pmm.total(),
    ensures
        r == pmm.used()[page as int],
{
    pmm.is_used(page)
}

/// Number of free frames.
pub fn get_free_page_count(pmm: &Pmm) -> (r: usize)
    ensures
        r == pmm.free_pages(),
{
    pmm.free_count
}

/// Number of frames that were free right after boot.
pub fn get_usable_page_count(pmm: &Pmm) -> (r: usize)
    ensures
        r == pmm.usable(),
{
    pmm.usable_pages
}

/// Number of frames the bitmap tracks.
pub fn get_total_page_count(pmm: &Pmm) -> (r: usize)
    ensures
        r == pmm.total(),
{
    pmm.total_pages
}

/// Bytes of free physical memory.
pub fn get_free_memory(pmm: &Pmm) -> (r: usize)
    requires
        pmm.wf(),
    ensures
        r == pmm.free_pages() * 4096,
{
    proof {
        pmm.lemma_wf_bounds();
        assert(pmm.free_pages() * 4096 <= pmm.total() * 4096) by (nonlinear_arith)
            requires
                pmm.free_pages() <= pmm.total(),
        ;
    }
    pmm.free_count * PAGE_SIZE
}

/// Bytes of physical memory that were free right after boot.
pub fn get_usable_memory(pmm: &Pmm) -> (r: usize)
    requires
        pmm.wf(),
    ensures
        r == pmm.usable() * 4096,
{
    proof {
        pmm.lemma_wf_bounds();
        assert(pmm.usable() * 4096 <= pmm.total() * 4096) by (nonlinear_arith)
            requires
                pmm.usable() <= pmm.total(),
        ;
    }
    pmm.usable_pages * PAGE_SIZE
}

/// The free-page counter always equals the number of frames whose bitmap
/// bit is clear.
pub proof fn law_free_count_matches_bitmap(pmm: &Pmm)
    requires
        pmm.wf(),
    ensures
        pmm.free_pages() == count_free(pmm.used()),
        pmm.free_pages() <= pmm.total(),
{
    lemma_count_free_le(pmm.used());
}

/// Freeing the page that `alloc_page` just handed out puts the allocator
/// back as it was: the same bitmap and the same free count.
pub proof fn law_free_undoes_alloc(before: &Pmm, allocated: &Pmm, freed: &Pmm, page: int)
    requires
        before.wf(),
        0 <= page < before.total(),
        !before.used()[page],
        allocated.used() == before.used().update(page, true),
        allocated.free_pages() + 1 == before.free_pages(),
        freed.used() == allocated.used().update(page, false),
        freed.free_pages() == allocated.free_pages() + 1,
    ensures
        freed.used() == before.used(),
        freed.free_pages() == before.free_pages(),
{
    assert(freed.used() =~= before.used());
}

/// A frame free right after boot lies in a usable region, at or above
/// `LOW_MEMORY_LIMIT`, outside the bitmap: `alloc_page` never hands out low
/// memory, reserved memory or the allocator's own bitmap.
pub proof fn law_boot_frames_are_safe(regions: Seq<MemRegion>, pmm: &Pmm, q: int)
    requires
        pmm.total() == layout_of(regions).total_pages,
        forall|k: int| 0 <= k < pmm.total() ==> #[trigger] pmm.used()[k] == !initially_free(regions, layout_of(regions), k),
        0 <= q < pmm.total(),
        !pmm.used()[q],
    ensures
        q * PAGE_SIZE >= LOW_MEMORY_LIMIT,
        !(layout_of(regions).bitmap_phys <= q * PAGE_SIZE < layout_of(regions).bitmap_phys
            + layout_of(regions).bitmap_pages * PAGE_SIZE),
        exists|j: int|
            0 <= j < regions.len() && (#[trigger] regions[j]).usable && regions[j].base <= q * PAGE_SIZE
                && (q + 1) * PAGE_SIZE <= region_end(regions[j]),
{
    assert(!pmm.used()[q]);
    let l = layout_of(regions);
    let j = choose|j: int| #[trigger] page_freed_by(regions, l, j, q);
    assert(page_freed_by(regions, l, j, q));
    let r = regions[j];
    assert(r.base <= q * 4096) by (nonlinear_arith)
        requires
            (r.base + 4095) / 4096 <= q,
            r.base >= 0,
    ;
    assert((q + 1) * 4096 <= region_end(r)) by (nonlinear_arith)
        requires
            q < region_end(r) / 4096,
            region_end(r) >= 0,
    ;
}

} // verus!
