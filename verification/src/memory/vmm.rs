//! Four-level x86_64 page tables, held in a model of physical memory as
//! 64-bit words (address `a` is word `a / 8`).
use vstd::prelude::*;
use crate::memory::pmm::{Pmm, PAGE_SIZE, alloc_page, first_free, first_free_from, lemma_first_free_is, lemma_first_free};

verus! {

pub const PTE_PRESENT: u64 = 1;
pub const PTE_WRITABLE: u64 = 2;
pub const PTE_USER: u64 = 4;
pub const PTE_NO_CACHE: u64 = 0x10;
pub const PTE_NO_EXEC: u64 = 0x8000_0000_0000_0000;
/// Bits of an entry (or of CR3) that hold a frame address.
pub const ADDR_MASK: u64 = 0x000f_ffff_ffff_f000;

/// Physical memory, as 64-bit words.
pub struct PhysMem {
    words: Vec<u64>,
}

impl PhysMem {
    pub closed spec fn view(&self) -> Seq<u64> {
        self.words@
    }

    /// Memory holding `words`, starting at physical address 0.
    pub fn new(words: Vec<u64>) -> (r: PhysMem)
        ensures
            r@ == words@,
    {
        PhysMem { words }
    }

    /// Stores `ws` at word index `at` onwards.
    pub fn store(&mut self, at: usize, ws: &[u64])
        requires
            at + ws@.len() <= old(self)@.len(),
        ensures
            final(self)@ == with_words(old(self)@, at as int, ws@),
    {
        let len = self.words.len();
        let mut i: usize = 0;
        while i < ws.len()
            invariant
                i <= ws@.len(),
                at + ws@.len() <= len,
                self.words@.len() == len,
                self@.len() == old(self)@.len(),
                forall|k: int|
                    0 <= k < self@.len() ==> #[trigger] self@[k] == if at <= k < at + i {
                        ws@[k - at]
                    } else {
                        old(self)@[k]
                    },
            decreases ws.len() - i,
        {
            self.words.set(at + i, ws[i]);
            i = i + 1;
        }
        assert(self@ =~= with_words(old(self)@, at as int, ws@));
    }

    /// The words of memory.
    pub fn words(&self) -> (r: &Vec<u64>)
        ensures
            r@ == self@,
    {
        &self.words
    }
}

/// Memory with the words `ws` stored from word index `at` on.
pub open spec fn with_words(mem: Seq<u64>, at: int, ws: Seq<u64>) -> Seq<u64> {
    Seq::new(mem.len(), |k: int| if at <= k < at + ws.len() { ws[k - at] } else { mem[k] })
}

/// Frame address held in an entry.
pub open spec fn frame_of(e: u64) -> u64 {
    e & ADDR_MASK
}

pub open spec fn present(e: u64) -> bool {
    e & PTE_PRESENT != 0
}

/// Word index of entry `idx` of the table at physical address `t`.
pub open spec fn slot(t: u64, idx: int) -> int {
    t as int / 8 + idx
}

/// The table at `t` lies inside the modelled memory.
pub open spec fn table_ok(mem: Seq<u64>, t: u64) -> bool {
    t as int / 8 + 512 <= mem.len()
}

/// The table indices (PML4, PDPT, PD, PT) of virtual address `virt`.
pub open spec fn indices(virt: usize) -> (int, int, int, int) {
    let v = virt as u64;
    (
        ((v >> 39u64) & 0x1ff) as int,
        ((v >> 30u64) & 0x1ff) as int,
        ((v >> 21u64) & 0x1ff) as int,
        ((v >> 12u64) & 0x1ff) as int,
    )
}

/// The walk from CR3 to the page-table entry for `virt`: the table that
/// holds it, its index, and the entry; `None` when a higher-level entry is
/// not present.
pub open spec fn walk(mem: Seq<u64>, cr3: u64, virt: usize) -> Option<(u64, int, u64)> {
    let (i4, i3, i2, i1) = indices(virt);
    let t4 = frame_of(cr3);
    let e4 = mem[slot(t4, i4)];
    if !present(e4) {
        None
    } else {
        let t3 = frame_of(e4);
        let e3 = mem[slot(t3, i3)];
        if !present(e3) {
            None
        } else {
            let t2 = frame_of(e3);
            let e2 = mem[slot(t2, i2)];
            if !present(e2) {
                None
            } else {
                let t1 = frame_of(e2);
                Some((t1, i1, mem[slot(t1, i1)]))
            }
        }
    }
}

/// Every table the walk for `virt` reads lies inside the modelled memory.
pub open spec fn walk_readable(mem: Seq<u64>, cr3: u64, virt: usize) -> bool {
    let (i4, i3, i2, i1) = indices(virt);
    let t4 = frame_of(cr3);
    let e4 = mem[slot(t4, i4)];
    let t3 = frame_of(e4);
    let e3 = mem[slot(t3, i3)];
    let t2 = frame_of(e3);
    let e2 = mem[slot(t2, i2)];
    let t1 = frame_of(e2);
    &&& table_ok(mem, t4)
    &&& present(e4) ==> table_ok(mem, t3)
    &&& present(e4) && present(e3) ==> table_ok(mem, t2)
    &&& present(e4) && present(e3) && present(e2) ==> table_ok(mem, t1)
}

/// The physical address `virt` maps to, if its page is mapped.
pub open spec fn translate(mem: Seq<u64>, cr3: u64, virt: usize) -> Option<usize> {
    match walk(mem, cr3, virt) {
        Some((_, _, e1)) => if present(e1) {
            Some(((e1 & ADDR_MASK) as usize) | (virt & 0xfff))
        } else {
            None
        },
        None => None,
    }
}

/// Memory after clearing the page-table entry for `virt`.
pub open spec fn unmap_effect(mem: Seq<u64>, cr3: u64, virt: usize) -> Seq<u64> {
    match walk(mem, cr3, virt) {
        Some((t, i, _)) => mem.update(slot(t, i), 0u64),
        None => mem,
    }
}

/// `mem` with the 512 words of the frame at `p` zeroed.
pub open spec fn zero_frame(mem: Seq<u64>, p: u64) -> Seq<u64> {
    Seq::new(mem.len(), |k: int| if p as int / 8 <= k < p as int / 8 + 512 { 0u64 } else { mem[k] })
}

/// One level of the walk that creates missing tables: memory, frame flags
/// and the next table's address after following (or creating) entry `idx`
/// of the table at `t`. A missing table is the lowest free frame, zeroed.
pub open spec fn table_step(mem: Seq<u64>, used: Seq<bool>, t: u64, idx: int) -> (
    Seq<u64>,
    Seq<bool>,
    u64,
) {
    let e = mem[slot(t, idx)];
    if present(e) {
        (mem, used, frame_of(e))
    } else {
        let p = first_free(used, 0)->0;
        let np = (p * 4096) as u64;
        (
            zero_frame(mem, np).update(slot(t, idx), np | PTE_PRESENT | PTE_WRITABLE),
            used.update(p, true),
            np,
        )
    }
}

/// A step of `table_step` reads and writes only modelled memory and, when it
/// must create a table, has a free frame to use.
pub open spec fn step_ok(mem: Seq<u64>, used: Seq<bool>, t: u64, idx: int) -> bool {
    &&& table_ok(mem, t)
    &&& !present(mem[slot(t, idx)]) ==> first_free(used, 0) is Some && table_ok(
        mem,
        (first_free(used, 0)->0 * 4096) as u64,
    )
}

/// Memory and frame flags after mapping `virt` to `phys` with `flags`.
pub open spec fn map_effect(
    mem: Seq<u64>,
    used: Seq<bool>,
    cr3: u64,
    virt: usize,
    phys: usize,
    flags: u64,
) -> (Seq<u64>, Seq<bool>) {
    let (i4, i3, i2, i1) = indices(virt);
    let (m3, u3, t3) = table_step(mem, used, frame_of(cr3), i4);
    let (m2, u2, t2) = table_step(m3, u3, t3, i3);
    let (m1, u1, t1) = table_step(m2, u2, t2, i2);
    (m1.update(slot(t1, i1), (phys as u64) | flags | PTE_PRESENT), u1)
}

/// Mapping `virt` needs only modelled memory and finds a free frame for each
/// table it creates.
pub open spec fn map_ok(mem: Seq<u64>, used: Seq<bool>, cr3: u64, virt: usize) -> bool {
    let (i4, i3, i2, i1) = indices(virt);
    let (m3, u3, t3) = table_step(mem, used, frame_of(cr3), i4);
    let (m2, u2, t2) = table_step(m3, u3, t3, i3);
    let (m1, u1, t1) = table_step(m2, u2, t2, i2);
    &&& step_ok(mem, used, frame_of(cr3), i4)
    &&& step_ok(m3, u3, t3, i3)
    &&& step_ok(m2, u2, t2, i2)
    &&& table_ok(m1, t1)
}

proof fn lemma_frame_aligned(e: u64)
    ensures
        frame_of(e) % 4096 == 0,
        frame_of(e) as int / 8 * 8 == frame_of(e),
{
    assert((e & 0x000f_ffff_ffff_f000u64) % 4096 == 0) by (bit_vector);
}

proof fn lemma_new_entry(p: u64)
    requires
        p % 4096 == 0,
        p < 0x10_0000_0000_0000,
    ensures
        present(p | PTE_PRESENT | PTE_WRITABLE),
        frame_of(p | PTE_PRESENT | PTE_WRITABLE) == p,
{
    assert((p | 1u64 | 2u64) & 1u64 != 0) by (bit_vector);
    assert((p | 1u64 | 2u64) & 0x000f_ffff_ffff_f000u64 == p) by (bit_vector)
        requires
            p % 4096 == 0,
            p < 0x10_0000_0000_0000,
    ;
}

/// The four table indices of `virt`.
pub fn split_indices(virt: usize) -> (r: (usize, usize, usize, usize))
    ensures
        (r.0 as int, r.1 as int, r.2 as int, r.3 as int) == indices(virt),
        r.0 < 512 && r.1 < 512 && r.2 < 512 && r.3 < 512,
{
    let v = virt as u64;
    let a = (v >> 39u64) & 0x1ff;
    let b = (v >> 30u64) & 0x1ff;
    let c = (v >> 21u64) & 0x1ff;
    let d = (v >> 12u64) & 0x1ff;
    assert(a < 512 && b < 512 && c < 512 && d < 512) by (bit_vector)
        requires
            a == (v >> 39u64) & 0x1ff,
            b == (v >> 30u64) & 0x1ff,
            c == (v >> 21u64) & 0x1ff,
            d == (v >> 12u64) & 0x1ff,
    ;
    (a as usize, b as usize, c as usize, d as usize)
}

/// Reads entry `idx` of the table at `t`.
fn read_entry(mem: &PhysMem, t: u64, idx: usize) -> (r: u64)
    requires
        table_ok(mem@, t),
        idx < 512,
    ensures
        r == mem@[slot(t, idx as int)],
{
    let n = mem.words.len();
    let k = (t / 8) as usize + idx;
    mem.words[k]
}

/// The walk to the page-table entry for `virt`: the table holding it (by
/// physical address), its index and its value.
pub fn walk_existing(mem: &PhysMem, cr3: u64, virt: usize) -> (r: Option<(u64, usize, u64)>)
    requires
        walk_readable(mem@, cr3, virt),
    ensures
        r matches Some((t, i, e)) ==> walk(mem@, cr3, virt) == Some((t, i as int, e)),
        r is None ==> walk(mem@, cr3, virt) is None,
{
    let (pml4_idx, pdpt_idx, pd_idx, pt_idx) = split_indices(virt);
    let pml4 = cr3 & ADDR_MASK;
    let e4 = read_entry(mem, pml4, pml4_idx);
    if e4 & PTE_PRESENT == 0 {
        return None;
    }
    let pdpt = e4 & ADDR_MASK;
    let e3 = read_entry(mem, pdpt, pdpt_idx);
    if e3 & PTE_PRESENT == 0 {
        return None;
    }
    let pd = e3 & ADDR_MASK;
    let e2 = read_entry(mem, pd, pd_idx);
    if e2 & PTE_PRESENT == 0 {
        return None;
    }
    let pt = e2 & ADDR_MASK;
    let e1 = read_entry(mem, pt, pt_idx);
    Some((pt, pt_idx, e1))
}

/// The physical address `virt` maps to, or `None` when it is not mapped.
pub fn get_phys_addr(mem: &PhysMem, cr3: u64, virt: usize) -> (r: Option<usize>)
    requires
        walk_readable(mem@, cr3, virt),
    ensures
        r == translate(mem@, cr3, virt),
{
    let (_pt, _pt_idx, e1) = match walk_existing(mem, cr3, virt) {
        Some(w) => w,
        None => {
            return None;
        },
    };
    if e1 & PTE_PRESENT == 0 {
        return None;
    }
    Some(((e1 & ADDR_MASK) as usize) | (virt & 0xfff))
}

/// Follows entry `idx` of the table at `table`, creating the next-level
/// table from the lowest free frame when the entry is not present.
fn next_table_or_create(mem: &mut PhysMem, pmm: &mut Pmm, table: u64, idx: usize) -> (r: u64)
    requires
        old(pmm).wf(),
        idx < 512,
        step_ok(old(mem)@, old(pmm).used(), table, idx as int),
    ensures
        final(pmm).wf(),
        final(pmm).total() == old(pmm).total(),
        final(pmm).usable() == old(pmm).usable(),
        final(pmm).bitmap_range() == old(pmm).bitmap_range(),
        (final(mem)@, final(pmm).used(), r) == table_step(old(mem)@, old(pmm).used(), table, idx as int),
        final(mem)@.len() == old(mem)@.len(),
        final(pmm).free_pages() == old(pmm).free_pages() - if present(
            old(mem)@[slot(table, idx as int)],
        ) {
            0int
        } else {
            1int
        },
{
    let n = mem.words.len();
    let k = (table / 8) as usize + idx;
    let entry = mem.words[k];
    if entry & PTE_PRESENT != 0 {
        return entry & ADDR_MASK;
    }
    let ghost used0 = pmm.used();
    let phys = match alloc_page(pmm) {
        Some(p) => p,
        None => {
            proof {
                lemma_first_free(used0, 0);
                old(pmm).lemma_wf_bounds();
                let f = first_free(used0, 0)->0;
                assert(used0[f]);
            }
            return 0;
        },
    };
    proof {
        old(pmm).lemma_wf_bounds();
        lemma_first_free_is(used0, phys as int / 4096);
        assert(phys as int == (phys as int / 4096) * 4096);
    }
    let p64 = phys as u64;
    let base = (p64 / 8) as usize;
    let mut j: usize = 0;
    while j < 512
        invariant
            j <= 512,
            n == mem@.len(),
            base == p64 as int / 8,
            base + 512 <= mem@.len(),
            mem@.len() == old(mem)@.len(),
            forall|w: int|
                0 <= w < mem@.len() ==> #[trigger] mem@[w] == if base <= w < base + j {
                    0u64
                } else {
                    old(mem)@[w]
                },
        decreases 512 - j,
    {
        mem.words.set(base + j, 0u64);
        j = j + 1;
    }
    assert(mem@ =~= zero_frame(old(mem)@, p64));
    mem.words.set(k, p64 | PTE_PRESENT | PTE_WRITABLE);
    p64
}

/// Maps the page at `virt` to the frame at `phys` with `flags` (plus
/// present), creating missing tables from free frames.
pub fn map_page(mem: &mut PhysMem, pmm: &mut Pmm, cr3: u64, virt: usize, phys: usize, flags: u64)
    requires
        old(pmm).wf(),
        virt % PAGE_SIZE == 0,
        phys % PAGE_SIZE == 0,
        map_ok(old(mem)@, old(pmm).used(), cr3, virt),
    ensures
        final(pmm).wf(),
        final(pmm).total() == old(pmm).total(),
        final(pmm).usable() == old(pmm).usable(),
        final(pmm).bitmap_range() == old(pmm).bitmap_range(),
        (final(mem)@, final(pmm).used()) == map_effect(
            old(mem)@,
            old(pmm).used(),
            cr3,
            virt,
            phys,
            flags,
        ),
{
    let (pml4_idx, pdpt_idx, pd_idx, pt_idx) = split_indices(virt);
    let pml4 = cr3 & ADDR_MASK;
    let pdpt = next_table_or_create(mem, pmm, pml4, pml4_idx);
    let pd = next_table_or_create(mem, pmm, pdpt, pdpt_idx);
    let pt = next_table_or_create(mem, pmm, pd, pd_idx);
    let n = mem.words.len();
    let k = (pt / 8) as usize + pt_idx;
    mem.words.set(k, (phys as u64) | flags | PTE_PRESENT);
}

/// Clears the page-table entry for `virt`, if the tables above it exist.
pub fn unmap_page(mem: &mut PhysMem, cr3: u64, virt: usize)
    requires
        virt % PAGE_SIZE == 0,
        walk_readable(old(mem)@, cr3, virt),
    ensures
        final(mem)@ == unmap_effect(old(mem)@, cr3, virt),
{
    match walk_existing(mem, cr3, virt) {
        Some((pt, pt_idx, _e1)) => {
            let n = mem.words.len();
            assert(table_ok(mem@, pt));
            assert(pt_idx < 512) by {
                let (i4, i3, i2, i1) = indices(virt);
                let v = virt as u64;
                assert(((v >> 12u64) & 0x1ff) < 512) by (bit_vector);
            }
            let k = (pt / 8) as usize + pt_idx;
            mem.words.set(k, 0u64);
        },
        None => {},
    }
}

// ---------------------------------------------------------------- laws

/// The frame holding the table at `t` is marked in use.
pub open spec fn frame_in_use(used: Seq<bool>, t: u64) -> bool {
    0 <= t as int / 4096 < used.len() && used[t as int / 4096]
}

/// The tables that the walk for `virt` already passes through are distinct
/// frames, each marked in use.
pub open spec fn path_sane(mem: Seq<u64>, used: Seq<bool>, cr3: u64, virt: usize) -> bool {
    let (i4, i3, i2, i1) = indices(virt);
    let t4 = frame_of(cr3);
    let e4 = mem[slot(t4, i4)];
    let t3 = frame_of(e4);
    let e3 = mem[slot(t3, i3)];
    let t2 = frame_of(e3);
    let e2 = mem[slot(t2, i2)];
    let t1 = frame_of(e2);
    &&& frame_in_use(used, t4)
    &&& present(e4) ==> frame_in_use(used, t3) && t3 != t4
    &&& present(e4) && present(e3) ==> frame_in_use(used, t2) && t2 != t4 && t2 != t3
    &&& present(e4) && present(e3) && present(e2) ==> frame_in_use(used, t1) && t1 != t4 && t1
        != t3 && t1 != t2
}

proof fn lemma_slots_differ(a: u64, b: u64, i: int, j: int)
    requires
        a != b,
        a % 4096 == 0,
        b % 4096 == 0,
        0 <= i < 512,
        0 <= j < 512,
    ensures
        slot(a, i) != slot(b, j),
        !(b as int / 8 <= slot(a, i) < b as int / 8 + 512),
{
    assert(a as int / 8 != b as int / 8 ==> (a as int / 8 + 512 <= b as int / 8 || b as int / 8
        + 512 <= a as int / 8)) by (nonlinear_arith)
        requires
            a % 4096 == 0,
            b % 4096 == 0,
    ;
    assert(a as int / 8 != b as int / 8) by (nonlinear_arith)
        requires
            a != b,
            a % 4096 == 0,
            b % 4096 == 0,
    ;
}

/// What one step of `table_step` keeps: words outside the new table and the
/// written entry, the flags already set, and (for a created table) a frame
/// that was free before and is in use after.
proof fn lemma_step(mem: Seq<u64>, used: Seq<bool>, t: u64, idx: int)
    requires
        step_ok(mem, used, t, idx),
        0 <= idx < 512,
        t % 4096 == 0,
        used.len() * 512 <= mem.len(),
        mem.len() <= 0x2_0000_0000_0000,
    ensures
        ({
            let (m, u, n) = table_step(mem, used, t, idx);
            &&& m.len() == mem.len()
            &&& u.len() == used.len()
            &&& n % 4096 == 0
            &&& forall|q: int| 0 <= q < used.len() && used[q] ==> #[trigger] u[q]
            &&& frame_in_use(u, n) || present(mem[slot(t, idx)])
            &&& present(m[slot(t, idx)])
            &&& frame_of(m[slot(t, idx)]) == n
            &&& present(mem[slot(t, idx)]) ==> m == mem && u == used && n == frame_of(mem[slot(t, idx)])
            &&& !present(mem[slot(t, idx)]) ==> !used[n as int / 4096] && 0 <= n as int / 4096 < used.len()
                && forall|w: int|
                0 <= w < mem.len() && w != slot(t, idx) && !(n as int / 8 <= w < n as int / 8 + 512)
                    ==> #[trigger] m[w] == mem[w]
            &&& !present(mem[slot(t, idx)]) ==> forall|w: int|
                n as int / 8 <= w < n as int / 8 + 512 && w != slot(t, idx) ==> #[trigger] m[w] == 0u64
        }),
{
    let e = mem[slot(t, idx)];
    lemma_frame_aligned(e);
    if !present(e) {
        crate::memory::pmm::lemma_first_free(used, 0);
        let p = first_free(used, 0)->0;
        let np = (p * 4096) as u64;
        assert(p * 4096 < 0x10_0000_0000_0000) by (nonlinear_arith)
            requires
                0 <= p < used.len(),
                used.len() * 512 <= mem.len(),
                mem.len() <= 0x2_0000_0000_0000,
        ;
        lemma_new_entry(np);
        assert(np as int / 4096 == p);
    }
}

/// Mapping a page makes every address in it translate to the same offset
/// in the target frame, provided the tables the walk already passes through
/// are distinct frames in use (new tables come from free frames).
pub proof fn law_map_then_translate(
    mem: Seq<u64>,
    used: Seq<bool>,
    cr3: u64,
    virt: usize,
    phys: usize,
    flags: u64,
    off: usize,
)
    requires
        virt % 4096 == 0,
        phys % 4096 == 0,
        phys < 0x10_0000_0000_0000,
        flags & ADDR_MASK == 0,
        off < 4096,
        map_ok(mem, used, cr3, virt),
        path_sane(mem, used, cr3, virt),
        used.len() * 512 <= mem.len(),
        mem.len() <= 0x2_0000_0000_0000,
        virt + off <= usize::MAX,
    ensures
        translate(map_effect(mem, used, cr3, virt, phys, flags).0, cr3, (virt + off) as usize) == Some(
            (phys + off) as usize,
        ),
{
    let va = (virt + off) as usize;
    let (i4, i3, i2, i1) = indices(virt);
    lemma_same_indices(virt, off);
    let t4 = frame_of(cr3);
    lemma_frame_aligned(cr3);
    let (m3, u3, t3) = table_step(mem, used, t4, i4);
    lemma_step(mem, used, t4, i4);
    let (m2, u2, t2) = table_step(m3, u3, t3, i3);
    lemma_step(m3, u3, t3, i3);
    let (m1, u1, t1) = table_step(m2, u2, t2, i2);
    lemma_step(m2, u2, t2, i2);
    let leaf = (phys as u64) | flags | PTE_PRESENT;
    let m0 = m1.update(slot(t1, i1), leaf);
    // the tables along the new path are distinct frames in use
    let e4 = mem[slot(t4, i4)];
    let e3 = m3[slot(t3, i3)];
    let e2 = m2[slot(t2, i2)];
    assert(!present(0u64)) by (bit_vector);
    assert(t3 != t4 && frame_in_use(u3, t3) && frame_in_use(u3, t4)) by {
        if !present(e4) {
            assert(!used[t3 as int / 4096]);
        }
    }
    lemma_slots_differ(t4, t3, i4, i3);
    lemma_slots_differ(t3, t4, i3, i4);
    if !present(e4) {
        assert(e3 == 0u64);
    }
    assert(t2 != t4 && t2 != t3 && frame_in_use(u2, t2) && frame_in_use(u2, t3) && frame_in_use(u2, t4)) by {
        if !present(e3) {
            assert(!u3[t2 as int / 4096]);
        } else {
            assert(present(e4));
            assert(m3 == mem);
        }
    }
    lemma_slots_differ(t2, t3, i2, i3);
    lemma_slots_differ(t2, t4, i2, i4);
    lemma_slots_differ(t3, t2, i3, i2);
    lemma_slots_differ(t4, t2, i4, i2);
    if !present(e3) {
        assert(e2 == 0u64);
    }
    assert(t1 != t4 && t1 != t3 && t1 != t2) by {
        if !present(e2) {
            assert(!u2[t1 as int / 4096]);
        } else {
            assert(present(e3));
            assert(present(e4));
            assert(m3 == mem);
            assert(m2 == m3);
        }
    }
    lemma_slots_differ(t4, t3, i4, i3);
    lemma_slots_differ(t4, t2, i4, i2);
    lemma_slots_differ(t4, t1, i4, i1);
    lemma_slots_differ(t3, t2, i3, i2);
    lemma_slots_differ(t3, t1, i3, i1);
    lemma_slots_differ(t2, t1, i2, i1);
    lemma_slots_differ(t3, t4, i3, i4);
    lemma_slots_differ(t2, t4, i2, i4);
    lemma_slots_differ(t2, t3, i2, i3);
    lemma_slots_differ(t1, t4, i1, i4);
    lemma_slots_differ(t1, t3, i1, i3);
    lemma_slots_differ(t1, t2, i1, i2);
    assert(m0[slot(t4, i4)] == m3[slot(t4, i4)]);
    assert(m0[slot(t3, i3)] == m2[slot(t3, i3)]);
    assert(m0[slot(t2, i2)] == m1[slot(t2, i2)]);
    assert(m0[slot(t1, i1)] == leaf);
    lemma_leaf(phys, flags, off);
}

/// After unmapping a page, no address in it translates.
pub proof fn law_unmap_then_untranslated(mem: Seq<u64>, cr3: u64, virt: usize, off: usize)
    requires
        virt % 4096 == 0,
        off < 4096,
        virt + off <= usize::MAX,
        walk_readable(mem, cr3, virt),
    ensures
        translate(unmap_effect(mem, cr3, virt), cr3, (virt + off) as usize) is None,
{
    lemma_same_indices(virt, off);
    assert(!present(0u64)) by (bit_vector);
    let m = unmap_effect(mem, cr3, virt);
    if let Some((t, i, _)) = walk(mem, cr3, virt) {
        let (i4, i3, i2, i1) = indices(virt);
        let s = slot(t, i);
        let t4 = frame_of(cr3);
        let t3 = frame_of(mem[slot(t4, i4)]);
        let t2 = frame_of(mem[slot(t3, i3)]);
        if s != slot(t4, i4) && s != slot(t3, i3) && s != slot(t2, i2) {
            assert(m[slot(t4, i4)] == mem[slot(t4, i4)]);
            assert(m[slot(t3, i3)] == mem[slot(t3, i3)]);
            assert(m[slot(t2, i2)] == mem[slot(t2, i2)]);
            assert(m[s] == 0u64);
        }
    }
}

proof fn lemma_same_indices(virt: usize, off: usize)
    requires
        virt % 4096 == 0,
        off < 4096,
        virt + off <= usize::MAX,
    ensures
        indices((virt + off) as usize) == indices(virt),
        ((virt + off) as usize) & 0xfff == off,
        0 <= indices(virt).0 < 512,
        0 <= indices(virt).1 < 512,
        0 <= indices(virt).2 < 512,
        0 <= indices(virt).3 < 512,
{
    let v = virt as u64;
    let o = off as u64;
    assert((v >> 39u64) & 0x1ff < 512 && (v >> 30u64) & 0x1ff < 512 && (v >> 21u64) & 0x1ff < 512
        && (v >> 12u64) & 0x1ff < 512) by (bit_vector);
    assert(((v + o) as u64 >> 39u64) & 0x1ff == (v >> 39u64) & 0x1ff && ((v + o) as u64 >> 30u64)
        & 0x1ff == (v >> 30u64) & 0x1ff && ((v + o) as u64 >> 21u64) & 0x1ff == (v >> 21u64) & 0x1ff
        && ((v + o) as u64 >> 12u64) & 0x1ff == (v >> 12u64) & 0x1ff) by (bit_vector)
        requires
            v % 4096 == 0,
            o < 4096,
            v + o <= 0xffff_ffff_ffff_ffffu64,
    ;
    let w = (virt + off) as usize;
    assert(w & 0xfff == off) by (bit_vector)
        requires
            w == virt + off,
            virt % 4096 == 0,
            off < 4096,
    ;
}

proof fn lemma_leaf(pu: usize, flags: u64, ou: usize)
    requires
        pu % 4096 == 0,
        pu < 0x10_0000_0000_0000,
        flags & 0x000f_ffff_ffff_f000u64 == 0,
        ou < 4096,
    ensures
        present((pu as u64) | flags | PTE_PRESENT),
        frame_of((pu as u64) | flags | PTE_PRESENT) == pu as u64,
        (pu | ou) == pu + ou,
{
    let p = pu as u64;
    assert((p | flags | 1u64) & 1u64 != 0) by (bit_vector);
    assert((p | flags | 1u64) & 0x000f_ffff_ffff_f000u64 == p) by (bit_vector)
        requires
            p % 4096 == 0,
            p < 0x10_0000_0000_0000,
            flags & 0x000f_ffff_ffff_f000u64 == 0,
    ;
    assert((pu | ou) == pu + ou) by (bit_vector)
        requires
            pu % 4096 == 0,
            ou < 4096,
    ;
}

// ---------------------------------------------------------------- readiness

/// A write to memory that a walk would make: optionally zeroing the frame at
/// `.1` first (when `.0`), then storing `.3` at word `.2`.
pub type PendingWrite = (bool, u64, usize, u64);

/// Memory after the pending writes `ws`, in order.
pub open spec fn overlaid(mem: Seq<u64>, ws: Seq<PendingWrite>) -> Seq<u64>
    decreases ws.len(),
{
    if ws.len() == 0 {
        mem
    } else {
        let w = ws.last();
        let prev = overlaid(mem, ws.drop_last());
        let z = if w.0 {
            zero_frame(prev, w.1)
        } else {
            prev
        };
        if (w.2 as int) < z.len() {
            z.update(w.2 as int, w.3)
        } else {
            z
        }
    }
}

pub proof fn lemma_overlaid_len(mem: Seq<u64>, ws: Seq<PendingWrite>)
    ensures
        overlaid(mem, ws).len() == mem.len(),
    decreases ws.len(),
{
    if ws.len() > 0 {
        lemma_overlaid_len(mem, ws.drop_last());
    }
}

/// Word `k` of memory after the pending writes `ws`, read without
/// performing them.
fn read_overlaid(mem: &PhysMem, ws: &Vec<PendingWrite>, k: usize) -> (r: u64)
    requires
        k < mem@.len(),
    ensures
        r == overlaid(mem@, ws@)[k as int],
{
    let mut i: usize = ws.len();
    assert(ws@.take(i as int) =~= ws@);
    while i > 0
        invariant
            i <= ws@.len(),
            k < mem@.len(),
            overlaid(mem@, ws@)[k as int] == overlaid(mem@, ws@.take(i as int))[k as int],
        decreases i,
    {
        let w = ws[i - 1];
        proof {
            assert(ws@.take(i as int).drop_last() =~= ws@.take(i - 1));
            assert(ws@.take(i as int).last() == w);
            lemma_overlaid_len(mem@, ws@.take(i - 1));
        }
        if k == w.2 {
            return w.3;
        }
        if w.0 && w.1 / 8 <= k as u64 && (k as u64) < w.1 / 8 + 512 {
            return 0;
        }
        i = i - 1;
    }
    assert(ws@.take(0) =~= Seq::<PendingWrite>::empty());
    let n = mem.words.len();
    mem.words[k]
}

/// Frames below `cursor` are taken in `u`; from `cursor` on, `u` is `used`.
pub open spec fn taken_below(u: Seq<bool>, used: Seq<bool>, cursor: int) -> bool {
    &&& u.len() == used.len()
    &&& 0 <= cursor
    &&& forall|q: int| 0 <= q < cursor && q < u.len() ==> #[trigger] u[q]
    &&& forall|q: int| cursor <= q < u.len() ==> #[trigger] u[q] == used[q]
}

pub proof fn lemma_first_free_taken_below(u: Seq<bool>, used: Seq<bool>, cursor: int)
    requires
        taken_below(u, used, cursor),
    ensures
        first_free(u, 0) == first_free(used, cursor),
{
    lemma_first_free(used, cursor);
    lemma_first_free(u, 0);
    match first_free(used, cursor) {
        Some(p) => {
            assert(!u[p]);
            lemma_first_free_is(u, p);
        },
        None => {
            if let Some(p) = first_free(u, 0) {
                if p < cursor {
                    assert(u[p]);
                } else {
                    assert(used[p]);
                }
            }
        },
    }
}

/// The lowest free frame of `u`, given that `u` is `used` with the frames
/// below `cursor` taken; the frames below the returned one are then taken.
pub(crate) fn take_frame(pmm: &Pmm, cursor: &mut usize, Ghost(u): Ghost<Seq<bool>>) -> (r: (
    Option<usize>,
    Ghost<Seq<bool>>,
))
    requires
        pmm.wf(),
        taken_below(u, pmm.used(), *old(cursor) as int),
    ensures
        r.0 == match first_free(u, 0) {
            Some(p) => Some(p as usize),
            None => None::<usize>,
        },
        r.0 matches Some(p) ==> {
            &&& r.1@ == u.update(p as int, true)
            &&& taken_below(r.1@, pmm.used(), *final(cursor) as int)
            &&& p < pmm.total()
            &&& p * 4096 <= usize::MAX
        },
{
    proof {
        lemma_first_free_taken_below(u, pmm.used(), *cursor as int);
        lemma_first_free(pmm.used(), *cursor as int);
        pmm.lemma_wf_bounds();
    }
    match first_free_from(pmm, *cursor) {
        Some(p) => {
            let ghost u2 = u.update(p as int, true);
            proof {
                assert forall|q: int| 0 <= q < p + 1 && q < u2.len() implies #[trigger] u2[q] by {
                    if q < *old(cursor) {
                        assert(u[q]);
                    } else if q < p {
                        assert(pmm.used()[q]);
                    }
                }
                assert(p * 4096 <= pmm.total() * 4096) by (nonlinear_arith)
                    requires
                        p < pmm.total(),
                ;
            }
            *cursor = p + 1;
            (Some(p), Ghost(u2))
        },
        None => (None, Ghost(u)),
    }
}

/// One level of the walk for readiness: whether `table_step` from the
/// overlaid state at table `t` is allowed (`step_ok`), and if so the
/// overlaid state after it and the next table.
fn step_ready(
    mem: &PhysMem,
    pmm: &Pmm,
    ws: &mut Vec<PendingWrite>,
    cursor: &mut usize,
    t: u64,
    idx: usize,
    Ghost(u): Ghost<Seq<bool>>,
) -> (r: (bool, u64, Ghost<Seq<bool>>))
    requires
        pmm.wf(),
        idx < 512,
        taken_below(u, pmm.used(), *old(cursor) as int),
    ensures
        r.0 == step_ok(overlaid(mem@, old(ws)@), u, t, idx as int),
        r.0 ==> {
            let (m2, u2, t2) = table_step(overlaid(mem@, old(ws)@), u, t, idx as int);
            &&& overlaid(mem@, final(ws)@) == m2
            &&& r.2@ == u2
            &&& r.1 == t2
            &&& taken_below(u2, pmm.used(), *final(cursor) as int)
        },
{
    let ghost m = overlaid(mem@, ws@);
    proof {
        lemma_overlaid_len(mem@, ws@);
    }
    let n = mem.words.len();
    if !(t / 8 + 512 <= n as u64) {
        return (false, 0, Ghost(u));
    }
    let k = (t / 8) as usize + idx;
    let e = read_overlaid(mem, ws, k);
    if e & PTE_PRESENT != 0 {
        return (true, e & ADDR_MASK, Ghost(u));
    }
    let (p, Ghost(u2)) = take_frame(pmm, cursor, Ghost(u));
    let p = match p {
        Some(p) => p,
        None => {
            return (false, 0, Ghost(u));
        },
    };
    proof {
        lemma_first_free(u, 0);
        pmm.lemma_wf_bounds();
        assert(p as int == first_free(u, 0)->0);
    }
    let np = (p * PAGE_SIZE) as u64;
    assert(np == (first_free(u, 0)->0 * 4096) as u64);
    if !(np / 8 + 512 <= n as u64) {
        return (false, 0, Ghost(u));
    }
    ws.push((true, np, k, np | PTE_PRESENT | PTE_WRITABLE));
    proof {
        assert(ws@.drop_last() =~= old(ws)@);
        assert(overlaid(mem@, ws@) =~= table_step(m, u, t, idx as int).0);
    }
    (true, np, Ghost(u2))
}

/// The three table levels of the walk for `virt` from the overlaid state:
/// whether `map_ok` holds there, and if so the overlaid state with the
/// tables made and the last table.
pub(crate) fn walk_ready(
    mem: &PhysMem,
    pmm: &Pmm,
    ws: &mut Vec<PendingWrite>,
    cursor: &mut usize,
    cr3: u64,
    virt: usize,
    Ghost(u): Ghost<Seq<bool>>,
) -> (r: (bool, u64, Ghost<Seq<bool>>))
    requires
        pmm.wf(),
        taken_below(u, pmm.used(), *old(cursor) as int),
    ensures
        r.0 == map_ok(overlaid(mem@, old(ws)@), u, cr3, virt),
        r.0 ==> {
            let (i4, i3, i2, i1) = indices(virt);
            let (m3, u3, t3) = table_step(overlaid(mem@, old(ws)@), u, frame_of(cr3), i4);
            let (m2, u2, t2) = table_step(m3, u3, t3, i3);
            let (m1, u1, t1) = table_step(m2, u2, t2, i2);
            &&& overlaid(mem@, final(ws)@) == m1
            &&& r.2@ == u1
            &&& r.1 == t1
            &&& taken_below(u1, pmm.used(), *final(cursor) as int)
        },
{
    let (i4, i3, i2, _i1) = split_indices(virt);
    let (ok, t3, Ghost(u3)) = step_ready(mem, pmm, ws, cursor, cr3 & ADDR_MASK, i4, Ghost(u));
    if !ok {
        return (false, 0, Ghost(u));
    }
    let (ok, t2, Ghost(u2)) = step_ready(mem, pmm, ws, cursor, t3, i3, Ghost(u3));
    if !ok {
        return (false, 0, Ghost(u));
    }
    let (ok, t1, Ghost(u1)) = step_ready(mem, pmm, ws, cursor, t2, i2, Ghost(u2));
    if !ok {
        return (false, 0, Ghost(u));
    }
    proof {
        lemma_overlaid_len(mem@, ws@);
    }
    let ok = t1 / 8 + 512 <= mem.words.len() as u64;
    (ok, t1, Ghost(u1))
}

/// Whether `map_page` may map `virt` now: every table the walk reads or
/// creates lies in the modelled memory, and a free frame is there for each
/// table it creates.
pub fn map_ready(mem: &PhysMem, pmm: &Pmm, cr3: u64, virt: usize) -> (r: bool)
    requires
        pmm.wf(),
    ensures
        r == map_ok(mem@, pmm.used(), cr3, virt),
{
    let mut ws: Vec<PendingWrite> = Vec::new();
    let mut cursor: usize = 0;
    proof {
        pmm.lemma_wf_bounds();
        assert(overlaid(mem@, ws@) == mem@);
    }
    let (ok, _t1, _u1) = walk_ready(mem, pmm, &mut ws, &mut cursor, cr3, virt, Ghost(pmm.used()));
    ok
}

} // verus!
