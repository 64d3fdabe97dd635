//! Kernel heap: a first-fit list of blocks, each a header followed by its
//! payload, tiling the heap's virtual range. Blocks are split when much
//! larger than a request and merged with free neighbours when freed; the
//! heap grows by mapping fresh pages at its end.
use vstd::prelude::*;
use crate::memory::pmm::{Pmm, PAGE_SIZE, alloc_page, first_free, lemma_first_free, lemma_first_free_is};
use crate::memory::vmm::{
    PhysMem, PendingWrite, map_page, map_effect, map_ok, overlaid, lemma_overlaid_len, taken_below,
    take_frame, walk_ready, split_indices, indices, slot, table_step, frame_of, table_ok, PTE_PRESENT,
};
use crate::ui::terminal::{Terminal, Geometry, Screen, put_chars, byte_chars, lemma_put_chars_concat};
use crate::device::serial::hex64_text;
use crate::text::dec_digits;

verus! {

/// Virtual address at which the kernel heap starts.
pub const HEAP_START: u64 = 0xffff_8001_0000_0000;
/// The heap never grows beyond this many bytes past `HEAP_START`.
pub const HEAP_MAX_SIZE: usize = 0x400_0000;
/// Bytes of a block header.
pub const HEADER_SIZE: usize = 24;
/// Requests are rounded up to a multiple of this.
pub const ALIGN: usize = 16;
/// Page-table flags of heap pages: present, writable, not executable.
pub const HEAP_PAGE_FLAGS: u64 = 0x8000_0000_0000_0003;

// ---------------------------------------------------------------- fresh pages

/// Memory and frame flags after mapping `k` fresh frames, one page after
/// another, from `virt` on.
pub open spec fn fresh_effect(mem: Seq<u64>, used: Seq<bool>, cr3: u64, virt: int, k: nat) -> (
    Seq<u64>,
    Seq<bool>,
)
    decreases k,
{
    if k == 0 {
        (mem, used)
    } else {
        let (m, u) = fresh_effect(mem, used, cr3, virt, (k - 1) as nat);
        let p = first_free(u, 0)->0;
        map_effect(
            m,
            u.update(p, true),
            cr3,
            (virt + (k - 1) * 4096) as usize,
            (p * 4096) as usize,
            HEAP_PAGE_FLAGS,
        )
    }
}

/// Each of the `k` mappings of `fresh_effect` finds a free frame and stays
/// inside the modelled memory.
pub open spec fn fresh_ok(mem: Seq<u64>, used: Seq<bool>, cr3: u64, virt: int, k: nat) -> bool
    decreases k,
{
    if k == 0 {
        true
    } else {
        let (m, u) = fresh_effect(mem, used, cr3, virt, (k - 1) as nat);
        let p = first_free(u, 0)->0;
        &&& fresh_ok(mem, used, cr3, virt, (k - 1) as nat)
        &&& first_free(u, 0) is Some
        &&& map_ok(m, u.update(p, true), cr3, (virt + (k - 1) * 4096) as usize)
    }
}

proof fn lemma_fresh_ok_prefix(mem: Seq<u64>, used: Seq<bool>, cr3: u64, virt: int, j: nat, k: nat)
    requires
        j <= k,
        fresh_ok(mem, used, cr3, virt, k),
    ensures
        fresh_ok(mem, used, cr3, virt, j),
    decreases k,
{
    if j < k {
        lemma_fresh_ok_prefix(mem, used, cr3, virt, j, (k - 1) as nat);
    }
}

/// Whether `map_fresh_pages` may back `n_pages` pages from `virt` on now:
/// each page finds a free frame, and each walk that maps one stays in the
/// modelled memory and finds the frames for the tables it creates.
pub fn fresh_ready(mem: &PhysMem, pmm: &Pmm, cr3: u64, virt: usize, n_pages: usize) -> (r: bool)
    requires
        pmm.wf(),
        virt + n_pages * 4096 <= usize::MAX,
    ensures
        r == fresh_ok(mem@, pmm.used(), cr3, virt as int, n_pages as nat),
{
    let mut ws: Vec<PendingWrite> = Vec::new();
    let mut cursor: usize = 0;
    let ghost mut u = pmm.used();
    let mut j: usize = 0;
    proof {
        pmm.lemma_wf_bounds();
        assert(overlaid(mem@, ws@) == mem@);
    }
    while j < n_pages
        invariant
            j <= n_pages,
            pmm.wf(),
            virt + n_pages * 4096 <= usize::MAX,
            fresh_ok(mem@, pmm.used(), cr3, virt as int, j as nat),
            (overlaid(mem@, ws@), u) == fresh_effect(mem@, pmm.used(), cr3, virt as int, j as nat),
            taken_below(u, pmm.used(), cursor as int),
        decreases n_pages - j,
    {
        let ghost m = overlaid(mem@, ws@);
        let (p, Ghost(u1)) = take_frame(pmm, &mut cursor, Ghost(u));
        let p = match p {
            Some(p) => p,
            None => {
                proof {
                    if fresh_ok(mem@, pmm.used(), cr3, virt as int, n_pages as nat) {
                        lemma_fresh_ok_prefix(mem@, pmm.used(), cr3, virt as int, (j + 1) as nat, n_pages as nat);
                    }
                }
                return false;
            },
        };
        proof {
            pmm.lemma_wf_bounds();
            lemma_first_free(u, 0);
            assert(p as int == first_free(u, 0)->0);
            assert(j * 4096 + 4096 <= n_pages * 4096) by (nonlinear_arith)
                requires
                    j < n_pages,
            ;
        }
        let va = virt + j * PAGE_SIZE;
        let (ok, t1, Ghost(u2)) = walk_ready(mem, pmm, &mut ws, &mut cursor, cr3, va, Ghost(u1));
        if !ok {
            proof {
                if fresh_ok(mem@, pmm.used(), cr3, virt as int, n_pages as nat) {
                    lemma_fresh_ok_prefix(mem@, pmm.used(), cr3, virt as int, (j + 1) as nat, n_pages as nat);
                }
            }
            return false;
        }
        let (_i4, _i3, _i2, i1) = split_indices(va);
        proof {
            lemma_overlaid_len(mem@, ws@);
            let (i4, i3, i2, i1s) = indices(va);
            let (m3, u3, t3) = table_step(m, u.update(p as int, true), frame_of(cr3), i4);
            let (m2, u2s, t2) = table_step(m3, u3, t3, i3);
            let (m1, u1s, t1s) = table_step(m2, u2s, t2, i2);
            assert(t1s == t1);
            assert(m1 == overlaid(mem@, ws@));
            assert(table_ok(m1, t1s));
            assert(t1 as int / 8 + 512 <= mem@.len());
        }
        let n = mem.words().len();
        let k = (t1 / 8) as usize + i1;
        let leaf = ((p * PAGE_SIZE) as u64) | HEAP_PAGE_FLAGS | PTE_PRESENT;
        let ghost before = ws@;
        ws.push((false, 0, k, leaf));
        proof {
            assert(ws@.drop_last() =~= before);
            assert(k as int == slot(t1, indices(va).3));
            assert(overlaid(mem@, ws@) =~= map_effect(
                m,
                u.update(p as int, true),
                cr3,
                va,
                (p * 4096) as usize,
                HEAP_PAGE_FLAGS,
            ).0);
            u = u2;
        }
        j = j + 1;
    }
    true
}

/// Backs `n_pages` pages from `virt` on with fresh frames.
pub fn map_fresh_pages(mem: &mut PhysMem, pmm: &mut Pmm, cr3: u64, virt: usize, n_pages: usize)
    requires
        old(pmm).wf(),
        virt % PAGE_SIZE == 0,
        virt + n_pages * 4096 <= usize::MAX,
        fresh_ok(old(mem)@, old(pmm).used(), cr3, virt as int, n_pages as nat),
    ensures
        final(pmm).wf(),
        final(pmm).total() == old(pmm).total(),
        final(pmm).usable() == old(pmm).usable(),
        final(pmm).bitmap_range() == old(pmm).bitmap_range(),
        (final(mem)@, final(pmm).used()) == fresh_effect(
            old(mem)@,
            old(pmm).used(),
            cr3,
            virt as int,
            n_pages as nat,
        ),
{
    let mut i: usize = 0;
    while i < n_pages
        invariant
            i <= n_pages,
            pmm.wf(),
            pmm.total() == old(pmm).total(),
            pmm.usable() == old(pmm).usable(),
            pmm.bitmap_range() == old(pmm).bitmap_range(),
            virt % PAGE_SIZE == 0,
            virt + n_pages * 4096 <= usize::MAX,
            fresh_ok(old(mem)@, old(pmm).used(), cr3, virt as int, n_pages as nat),
            (mem@, pmm.used()) == fresh_effect(old(mem)@, old(pmm).used(), cr3, virt as int, i as nat),
        decreases n_pages - i,
    {
        proof {
            lemma_fresh_ok_prefix(old(mem)@, old(pmm).used(), cr3, virt as int, (i + 1) as nat, n_pages as nat);
            assert(i * 4096 + 4096 <= n_pages * 4096) by (nonlinear_arith)
                requires
                    i < n_pages,
            ;
        }
        let ghost u = pmm.used();
        proof {
            pmm.lemma_wf_bounds();
        }
        let phys = match alloc_page(pmm) {
            Some(p) => p,
            None => {
                proof {
                    lemma_first_free(u, 0);
                    pmm.lemma_wf_bounds();
                    let f = first_free(u, 0)->0;
                    assert(u[f]);
                }
                return;
            },
        };
        proof {
            pmm.lemma_wf_bounds();
            lemma_first_free_is(u, phys as int / 4096);
            assert(phys as int == (phys as int / 4096) * 4096);
            assert((virt + i * 4096) % 4096 == 0) by (nonlinear_arith)
                requires
                    virt % 4096 == 0,
            ;
        }
        map_page(mem, pmm, cr3, virt + i * PAGE_SIZE, phys, HEAP_PAGE_FLAGS);
        i = i + 1;
    }
}

// ---------------------------------------------------------------- blocks

/// One heap block: its payload size and whether it is handed out.
#[derive(Clone, Copy, Debug, PartialEq, Eq, Structural)]
pub struct Block {
    pub size: usize,
    pub used: bool,
}

/// Bytes covered by `bs`, headers included.
pub open spec fn span(bs: Seq<Block>) -> int
    decreases bs.len(),
{
    if bs.len() == 0 {
        0
    } else {
        span(bs.drop_last()) + HEADER_SIZE + bs.last().size
    }
}

/// Address of the header of block `i`.
pub open spec fn addr_of(start: int, bs: Seq<Block>, i: int) -> int {
    start + span(bs.take(i))
}

/// `n` rounded up to a multiple of `ALIGN`.
pub open spec fn aligned(n: int) -> int {
    (n + 15) / 16 * 16
}

/// The first free block at or after `i` with at least `needed` payload bytes.
pub open spec fn first_fit(bs: Seq<Block>, needed: int, i: int) -> Option<int>
    decreases bs.len() - i,
{
    if i < 0 || i >= bs.len() {
        None
    } else if !bs[i].used && bs[i].size >= needed {
        Some(i)
    } else {
        first_fit(bs, needed, i + 1)
    }
}

/// The blocks after handing out block `i` for `needed` bytes: a block more
/// than a header and an alignment unit larger than needed is split, the
/// rest becoming a free block right after it.
pub open spec fn taken(bs: Seq<Block>, i: int, needed: int) -> Seq<Block> {
    let b = bs[i];
    if b.size > needed + HEADER_SIZE + ALIGN {
        bs.update(i, Block { size: needed as usize, used: true }).insert(
            i + 1,
            Block { size: (b.size - needed - HEADER_SIZE) as usize, used: false },
        )
    } else {
        bs.update(i, Block { size: b.size, used: true })
    }
}

/// Blocks `j` and `j + 1` made into one free block.
pub open spec fn merged(bs: Seq<Block>, j: int) -> Seq<Block> {
    bs.update(j, Block { size: (bs[j].size + HEADER_SIZE + bs[j + 1].size) as usize, used: false }).remove(
        j + 1,
    )
}

/// The blocks after block `i` is freed and merged with each neighbour that
/// is free: first the one after it, then the one before it.
pub open spec fn released(bs: Seq<Block>, i: int) -> Seq<Block> {
    let f = bs.update(i, Block { size: bs[i].size, used: false });
    let g = if i + 1 < bs.len() && !bs[i + 1].used {
        merged(f, i)
    } else {
        f
    };
    if 0 < i && !bs[i - 1].used {
        merged(g, i - 1)
    } else {
        g
    }
}

/// The kernel heap.
pub struct Heap {
    blocks: Vec<Block>,
    start: usize,
    end: usize,
}

impl Heap {
    pub closed spec fn blocks(&self) -> Seq<Block> {
        self.blocks@
    }

    /// Address of the first header.
    pub closed spec fn start(&self) -> int {
        self.start as int
    }

    /// One past the last mapped heap byte.
    pub closed spec fn end(&self) -> int {
        self.end as int
    }

    /// One past the last mapped heap byte.
    pub fn end_address(&self) -> (r: usize)
        ensures
            r == self.end(),
    {
        self.end
    }

    /// The blocks in address order.
    pub fn block_list(&self) -> (r: &Vec<Block>)
        ensures
            r@ == self.blocks(),
    {
        &self.blocks
    }

    /// The blocks tile `[start, end)`, which ends on a page boundary.
    pub open spec fn wf(&self) -> bool {
        &&& self.blocks().len() >= 1
        &&& self.start() + span(self.blocks()) == self.end()
        &&& self.end() <= usize::MAX - 4096
        &&& self.end() % 4096 == 0
        &&& self.start() >= 0
    }
}

/// Bytes the heap grows by when no block can hold `needed` bytes.
pub open spec fn grow_bytes(needed: int) -> int {
    aligned(needed + HEADER_SIZE + PAGE_SIZE)
}

/// Pages the heap grows by when no block can hold `needed` bytes.
pub open spec fn grow_pages(needed: int) -> int {
    grow_bytes(needed) / 4096
}

/// The heap ending at `end` can grow for `needed` bytes: it stays within
/// its maximum size and the fresh pages can be mapped.
pub open spec fn grow_ok(end: int, mem: Seq<u64>, used: Seq<bool>, cr3: u64, needed: int) -> bool {
    &&& end + grow_bytes(needed) >= HEAP_START
    &&& end + grow_bytes(needed) - HEAP_START <= HEAP_MAX_SIZE
    &&& end + grow_pages(needed) * 4096 <= usize::MAX - 4096
    &&& fresh_ok(mem, used, cr3, end, grow_pages(needed) as nat)
}

/// The block a growth for `needed` bytes appends.
pub open spec fn grown_block(needed: int) -> Block {
    Block { size: (grow_pages(needed) * 4096 - HEADER_SIZE) as usize, used: false }
}

proof fn lemma_span_take(bs: Seq<Block>, i: int)
    requires
        0 <= i < bs.len(),
    ensures
        span(bs.take(i + 1)) == span(bs.take(i)) + HEADER_SIZE + bs[i].size,
        span(bs.take(i)) >= 0,
{
    assert(bs.take(i + 1).drop_last() =~= bs.take(i));
    lemma_span_nonneg(bs.take(i));
}

proof fn lemma_span_nonneg(bs: Seq<Block>)
    ensures
        span(bs) >= 0,
    decreases bs.len(),
{
    if bs.len() > 0 {
        lemma_span_nonneg(bs.drop_last());
    }
}

/// The span of a sequence is the span of a prefix plus that of the rest.
proof fn lemma_span_split(bs: Seq<Block>, i: int)
    requires
        0 <= i <= bs.len(),
    ensures
        span(bs) == span(bs.take(i)) + span(bs.skip(i)),
    decreases bs.len() - i,
{
    if i == bs.len() {
        assert(bs.take(i) =~= bs);
        assert(bs.skip(i) =~= Seq::<Block>::empty());
    } else {
        lemma_span_split(bs, i + 1);
        lemma_span_take(bs, i);
        lemma_span_first(bs.skip(i));
        assert(bs.skip(i).skip(1) =~= bs.skip(i + 1));
    }
}

/// The span of a non-empty sequence is its first block plus the rest.
proof fn lemma_span_first(bs: Seq<Block>)
    requires
        bs.len() > 0,
    ensures
        span(bs) == HEADER_SIZE + bs[0].size + span(bs.skip(1)),
    decreases bs.len(),
{
    if bs.len() == 1 {
        assert(bs.skip(1) =~= Seq::<Block>::empty());
        assert(bs.drop_last() =~= Seq::<Block>::empty());
    } else {
        lemma_span_first(bs.drop_last());
        assert(bs.drop_last().skip(1) =~= bs.skip(1).drop_last());
    }
}

/// The block whose payload starts at `ptr`, scanning from block `i`.
pub open spec fn payload_block(start: int, bs: Seq<Block>, ptr: int, i: int) -> Option<int>
    decreases bs.len() - i,
{
    if i < 0 || i >= bs.len() {
        None
    } else if addr_of(start, bs, i) + HEADER_SIZE == ptr {
        Some(i)
    } else {
        payload_block(start, bs, ptr, i + 1)
    }
}

proof fn lemma_first_fit(bs: Seq<Block>, needed: int, i: int)
    requires
        0 <= i,
    ensures
        first_fit(bs, needed, i) matches Some(k) ==> i <= k < bs.len() && !bs[k].used && bs[k].size
            >= needed,
        first_fit(bs, needed, i) is None ==> forall|k: int|
            i <= k < bs.len() ==> #[trigger] bs[k].used || bs[k].size < needed,
    decreases bs.len() - i,
{
    if i < bs.len() {
        lemma_first_fit(bs, needed, i + 1);
    }
}

proof fn lemma_payload_block(start: int, bs: Seq<Block>, ptr: int, i: int)
    requires
        0 <= i,
    ensures
        payload_block(start, bs, ptr, i) matches Some(k) ==> i <= k < bs.len() && addr_of(
            start,
            bs,
            k,
        ) + HEADER_SIZE == ptr,
    decreases bs.len() - i,
{
    if i < bs.len() {
        lemma_payload_block(start, bs, ptr, i + 1);
    }
}

/// Handing out a block keeps the total span.
proof fn lemma_taken_span(bs: Seq<Block>, i: int, needed: int)
    requires
        0 <= i < bs.len(),
        0 <= needed <= bs[i].size,
    ensures
        span(taken(bs, i, needed)) == span(bs),
        taken(bs, i, needed).take(i) == bs.take(i),
        taken(bs, i, needed).len() >= bs.len(),
{
    let t = taken(bs, i, needed);
    lemma_span_split(bs, i);
    lemma_span_first(bs.skip(i));
    lemma_span_split(t, i);
    assert(t.take(i) =~= bs.take(i));
    lemma_span_first(t.skip(i));
    if bs[i].size > needed + HEADER_SIZE + ALIGN {
        lemma_span_first(t.skip(i).skip(1));
        assert(t.skip(i).skip(1).skip(1) =~= bs.skip(i).skip(1));
    } else {
        assert(t.skip(i).skip(1) =~= bs.skip(i).skip(1));
    }
}

/// Two neighbouring blocks lie within the span of all blocks.
proof fn lemma_pair_in_span(bs: Seq<Block>, j: int)
    requires
        0 <= j,
        j + 1 < bs.len(),
    ensures
        bs[j].size + HEADER_SIZE + bs[j + 1].size + HEADER_SIZE <= span(bs),
{
    lemma_span_split(bs, j);
    lemma_span_nonneg(bs.take(j));
    lemma_span_first(bs.skip(j));
    lemma_span_first(bs.skip(j).skip(1));
    lemma_span_nonneg(bs.skip(j).skip(1).skip(1));
}

/// Merging two neighbouring blocks keeps the total span.
proof fn lemma_merged_span(bs: Seq<Block>, j: int)
    requires
        0 <= j,
        j + 1 < bs.len(),
        bs[j].size + HEADER_SIZE + bs[j + 1].size <= usize::MAX,
    ensures
        span(merged(bs, j)) == span(bs),
        merged(bs, j).len() == bs.len() - 1,
{
    let t = merged(bs, j);
    lemma_span_split(bs, j);
    lemma_span_first(bs.skip(j));
    lemma_span_first(bs.skip(j).skip(1));
    lemma_span_split(t, j);
    assert(t.take(j) =~= bs.take(j));
    lemma_span_first(t.skip(j));
    assert(t.skip(j).skip(1) =~= bs.skip(j).skip(1).skip(1));
}

impl Heap {
    /// Hands out the first free block with at least `needed` bytes,
    /// splitting it when much larger; returns its payload address.
    fn try_alloc(&mut self, needed: usize) -> (r: Option<usize>)
        requires
            old(self).wf(),
        ensures
            final(self).wf(),
            final(self).start() == old(self).start(),
            final(self).end() == old(self).end(),
            match first_fit(old(self).blocks(), needed as int, 0) {
                None => r is None && final(self).blocks() == old(self).blocks(),
                Some(i) => r is Some && r->0 == addr_of(old(self).start(), old(self).blocks(), i) + HEADER_SIZE
                    && final(self).blocks() == taken(old(self).blocks(), i, needed as int),
            },
    {
        let ghost bs = self.blocks@;
        let mut cur: usize = self.start;
        let mut i: usize = 0;
        proof {
            lemma_first_fit(bs, needed as int, 0);
            assert(bs.take(0) =~= Seq::<Block>::empty());
        }
        while i < self.blocks.len()
            invariant
                bs == self.blocks@,
                self.wf(),
                self.start == old(self).start,
                self.end == old(self).end,
                self.blocks == old(self).blocks,
                i <= bs.len(),
                cur == addr_of(self.start as int, bs, i as int),
                first_fit(bs, needed as int, 0) == first_fit(bs, needed as int, i as int),
            decreases bs.len() - i,
        {
            let b = self.blocks[i];
            proof {
                lemma_span_take(bs, i as int);
                lemma_span_split(bs, i as int + 1);
                lemma_span_nonneg(bs.skip(i + 1));
            }
            if !b.used && b.size >= needed {
                let leftover = b.size.saturating_sub(needed + HEADER_SIZE + ALIGN);
                if leftover > 0 {
                    self.blocks.set(i, Block { size: needed, used: true });
                    self.blocks.insert(i + 1, Block { size: b.size - needed - HEADER_SIZE, used: false });
                } else {
                    self.blocks.set(i, Block { size: b.size, used: true });
                }
                proof {
                    assert(self.blocks@ =~= taken(bs, i as int, needed as int));
                    lemma_taken_span(bs, i as int, needed as int);
                }
                return Some(cur + HEADER_SIZE);
            }
            cur = cur + HEADER_SIZE + b.size;
            i = i + 1;
        }
        None
    }

    /// Makes blocks `j` and `j + 1` one free block.
    fn merge_pair(&mut self, j: usize)
        requires
            old(self).wf(),
            j + 1 < old(self).blocks().len(),
        ensures
            final(self).wf(),
            final(self).start() == old(self).start(),
            final(self).end() == old(self).end(),
            final(self).blocks() == merged(old(self).blocks(), j as int),
    {
        let ghost bs = self.blocks@;
        proof {
            lemma_pair_in_span(bs, j as int);
            lemma_merged_span(bs, j as int);
        }
        let n = self.blocks.len();
        let a = self.blocks[j];
        let b = self.blocks[j + 1];
        self.blocks.set(j, Block { size: a.size + HEADER_SIZE + b.size, used: false });
        self.blocks.remove(j + 1);
        assert(self.blocks@ =~= merged(bs, j as int));
    }

    /// Frees block `i` and merges it with each free neighbour.
    fn coalesce_free(&mut self, i: usize)
        requires
            old(self).wf(),
            i < old(self).blocks().len(),
        ensures
            final(self).wf(),
            final(self).start() == old(self).start(),
            final(self).end() == old(self).end(),
            final(self).blocks() == released(old(self).blocks(), i as int),
    {
        let ghost bs = self.blocks@;
        let n = self.blocks.len();
        let b = self.blocks[i];
        let prev_free = i > 0 && !self.blocks[i - 1].used;
        let next_free = i + 1 < n && !self.blocks[i + 1].used;
        self.blocks.set(i, Block { size: b.size, used: false });
        proof {
            lemma_span_split(bs, i as int);
            lemma_span_split(self.blocks@, i as int);
            assert(self.blocks@.take(i as int) =~= bs.take(i as int));
            lemma_span_first(bs.skip(i as int));
            lemma_span_first(self.blocks@.skip(i as int));
            assert(self.blocks@.skip(i as int).skip(1) =~= bs.skip(i as int).skip(1));
        }
        if next_free {
            self.merge_pair(i);
        }
        if prev_free {
            self.merge_pair(i - 1);
        }
    }
}

/// Whether `kmalloc_init` may set up a heap of `size_bytes` at `start`
/// now: exactly its precondition.
pub fn kmalloc_init_ready(mem: &PhysMem, pmm: &Pmm, cr3: u64, start: usize, size_bytes: usize) -> (r: bool)
    requires
        pmm.wf(),
    ensures
        r == (start % PAGE_SIZE == 0 && size_bytes > HEADER_SIZE + ALIGN && size_bytes <= usize::MAX
            - 4095 && start + (size_bytes + 4095) / 4096 * 4096 <= usize::MAX - 4096 && fresh_ok(
            mem@,
            pmm.used(),
            cr3,
            start as int,
            ((size_bytes + 4095) / 4096) as nat,
        )),
{
    if start % PAGE_SIZE != 0 || size_bytes <= HEADER_SIZE + ALIGN || size_bytes > usize::MAX - 4095 {
        return false;
    }
    let pages = (size_bytes + 4095) / 4096;
    proof {
        assert(pages * 4096 <= size_bytes + 4095) by (nonlinear_arith)
            requires
                pages == (size_bytes + 4095) / 4096,
        ;
    }
    let bytes = pages * PAGE_SIZE;
    if bytes > usize::MAX - 4096 || start > usize::MAX - 4096 - bytes {
        return false;
    }
    fresh_ready(mem, pmm, cr3, start, pages)
}

/// A heap of `size_bytes` (rounded up to whole pages) at `start`, backed by
/// fresh frames: one free block covering it all.
pub fn kmalloc_init(mem: &mut PhysMem, pmm: &mut Pmm, cr3: u64, start: usize, size_bytes: usize) -> (r: Heap)
    requires
        old(pmm).wf(),
        start % PAGE_SIZE == 0,
        size_bytes > HEADER_SIZE + ALIGN,
        size_bytes <= usize::MAX - 4095,
        start + (size_bytes + 4095) / 4096 * 4096 <= usize::MAX - 4096,
        fresh_ok(old(mem)@, old(pmm).used(), cr3, start as int, ((size_bytes + 4095) / 4096) as nat),
    ensures
        r.wf(),
        r.start() == start,
        r.end() == start + (size_bytes + 4095) / 4096 * 4096,
        r.blocks() == seq![Block { size: ((size_bytes + 4095) / 4096 * 4096 - HEADER_SIZE) as usize, used: false }],
        final(pmm).wf(),
        final(pmm).total() == old(pmm).total(),
        final(pmm).usable() == old(pmm).usable(),
        final(pmm).bitmap_range() == old(pmm).bitmap_range(),
        (final(mem)@, final(pmm).used()) == fresh_effect(
            old(mem)@,
            old(pmm).used(),
            cr3,
            start as int,
            ((size_bytes + 4095) / 4096) as nat,
        ),
{
    let pages = (size_bytes + PAGE_SIZE - 1) / PAGE_SIZE;
    proof {
        assert(pages * 4096 >= size_bytes) by (nonlinear_arith)
            requires
                pages == (size_bytes + 4095) / 4096,
        ;
        assert(start + pages * 4096 <= usize::MAX);
    }
    let total = pages * PAGE_SIZE;
    map_fresh_pages(mem, pmm, cr3, start, pages);
    let mut blocks: Vec<Block> = Vec::new();
    blocks.push(Block { size: total - HEADER_SIZE, used: false });
    let r = Heap { blocks, start, end: start + total };
    proof {
        reveal_with_fuel(span, 2);
        assert(r.blocks().drop_last() =~= Seq::<Block>::empty());
        assert((start + total) % 4096 == 0) by (nonlinear_arith)
            requires
                start % 4096 == 0,
                total == pages * 4096,
        ;
    }
    r
}

proof fn lemma_first_fit_push(bs: Seq<Block>, b: Block, needed: int)
    requires
        first_fit(bs, needed, 0) is None,
        !b.used,
        b.size >= needed,
    ensures
        first_fit(bs.push(b), needed, 0) == Some(bs.len() as int),
{
    lemma_first_fit(bs, needed, 0);
    lemma_first_fit_push_from(bs, b, needed, 0);
}

proof fn lemma_first_fit_push_from(bs: Seq<Block>, b: Block, needed: int, i: int)
    requires
        0 <= i <= bs.len(),
        forall|k: int| 0 <= k < bs.len() ==> #[trigger] bs[k].used || bs[k].size < needed,
        !b.used,
        b.size >= needed,
    ensures
        first_fit(bs.push(b), needed, i) == Some(bs.len() as int),
    decreases bs.len() - i,
{
    if i < bs.len() {
        assert(bs.push(b)[i] == bs[i]);
        lemma_first_fit_push_from(bs, b, needed, i + 1);
    }
}

impl Heap {
    /// Grows the heap by whole fresh pages at its end for a request of
    /// `needed` bytes, appending one free block that covers them.
    fn expand_heap(&mut self, mem: &mut PhysMem, pmm: &mut Pmm, cr3: u64, needed: usize)
        requires
            old(self).wf(),
            old(pmm).wf(),
            needed <= usize::MAX - 8192,
            grow_ok(old(self).end(), old(mem)@, old(pmm).used(), cr3, needed as int),
        ensures
            final(self).wf(),
            final(self).start() == old(self).start(),
            final(self).end() == old(self).end() + grow_pages(needed as int) * 4096,
            final(self).blocks() == old(self).blocks().push(grown_block(needed as int)),
            grown_block(needed as int).size >= needed + 1,
            final(pmm).wf(),
            final(pmm).total() == old(pmm).total(),
            final(pmm).usable() == old(pmm).usable(),
            final(pmm).bitmap_range() == old(pmm).bitmap_range(),
            (final(mem)@, final(pmm).used()) == fresh_effect(
                old(mem)@,
                old(pmm).used(),
                cr3,
                old(self).end(),
                grow_pages(needed as int) as nat,
            ),
    {
        let extra_bytes = align_up(needed + HEADER_SIZE + PAGE_SIZE);
        let extra_pages = extra_bytes / PAGE_SIZE;
        proof {
            assert(extra_pages * 4096 >= needed + 25 && extra_pages * 4096 <= extra_bytes) by (nonlinear_arith)
                requires
                    extra_pages == extra_bytes / 4096,
                    extra_bytes >= needed + 4120,
            ;
        }
        let limit: u64 = self.end as u64 + extra_bytes as u64 - HEAP_START;
        if limit > HEAP_MAX_SIZE as u64 {
            proof {
                assert(false);
            }
        }
        let end = self.end;
        map_fresh_pages(mem, pmm, cr3, end, extra_pages);
        let ghost bs = self.blocks@;
        self.blocks.push(Block { size: extra_pages * PAGE_SIZE - HEADER_SIZE, used: false });
        self.end = self.end + extra_pages * PAGE_SIZE;
        proof {
            assert(self.blocks@.drop_last() =~= bs);
            assert((end + extra_pages * 4096) % 4096 == 0) by (nonlinear_arith)
                requires
                    end % 4096 == 0,
            ;
        }
    }
}

/// Whether `kmalloc` may serve `size` bytes now: exactly its
/// precondition (a free block fits, or the heap can grow by fresh pages).
pub fn kmalloc_ready(heap: &Heap, mem: &PhysMem, pmm: &Pmm, cr3: u64, size: usize) -> (r: bool)
    requires
        heap.wf(),
        pmm.wf(),
    ensures
        r == (size > 0 && size <= usize::MAX - 8192 - 15 && (first_fit(heap.blocks(), aligned(size as int), 0) is Some
            || grow_ok(heap.end(), mem@, pmm.used(), cr3, aligned(size as int)))),
{
    if size == 0 || size > usize::MAX - 8192 - 15 {
        return false;
    }
    if heap_fits(heap, size) {
        return true;
    }
    let needed = align_up(size);
    let grow = align_up(needed + HEADER_SIZE + PAGE_SIZE);
    let pages = grow / PAGE_SIZE;
    let end = heap.end;
    let start = HEAP_START as u128;
    if (end as u128) + (grow as u128) < start {
        return false;
    }
    if (end as u128) + (grow as u128) - start > HEAP_MAX_SIZE as u128 {
        return false;
    }
    proof {
        assert(pages * 4096 <= grow) by (nonlinear_arith)
            requires
                pages == grow / 4096,
        ;
    }
    if end > usize::MAX - 4096 - pages * PAGE_SIZE {
        return false;
    }
    fresh_ready(mem, pmm, cr3, end, pages)
}

/// Hands out at least `size` bytes (rounded up to a multiple of 16) from
/// the first free block that fits, splitting it when much larger; when none
/// fits the heap first grows by fresh pages. Returns the payload address.
pub fn kmalloc(heap: &mut Heap, mem: &mut PhysMem, pmm: &mut Pmm, cr3: u64, size: usize) -> (r: usize)
    requires
        old(heap).wf(),
        old(pmm).wf(),
        size > 0,
        size <= usize::MAX - 8192 - 15,
        first_fit(old(heap).blocks(), aligned(size as int), 0) is Some || grow_ok(
            old(heap).end(),
            old(mem)@,
            old(pmm).used(),
            cr3,
            aligned(size as int),
        ),
    ensures
        final(heap).wf(),
        final(heap).start() == old(heap).start(),
        final(pmm).wf(),
        final(pmm).total() == old(pmm).total(),
        final(pmm).usable() == old(pmm).usable(),
        final(pmm).bitmap_range() == old(pmm).bitmap_range(),
        match first_fit(old(heap).blocks(), aligned(size as int), 0) {
            Some(i) => {
                &&& r == addr_of(old(heap).start(), old(heap).blocks(), i) + HEADER_SIZE
                &&& final(heap).blocks() == taken(old(heap).blocks(), i, aligned(size as int))
                &&& final(heap).end() == old(heap).end()
                &&& final(mem)@ == old(mem)@
                &&& final(pmm).used() == old(pmm).used()
                &&& final(pmm).free_pages() == old(pmm).free_pages()
            },
            None => {
                let needed = aligned(size as int);
                &&& r == old(heap).end() + HEADER_SIZE
                &&& final(heap).blocks() == taken(
                    old(heap).blocks().push(grown_block(needed)),
                    old(heap).blocks().len() as int,
                    needed,
                )
                &&& final(heap).end() == old(heap).end() + grow_pages(needed) * 4096
                &&& (final(mem)@, final(pmm).used()) == fresh_effect(
                    old(mem)@,
                    old(pmm).used(),
                    cr3,
                    old(heap).end(),
                    grow_pages(needed) as nat,
                )
            },
        },
{
    let needed = align_up(size);
    match heap.try_alloc(needed) {
        Some(p) => p,
        None => {
            heap.expand_heap(mem, pmm, cr3, needed);
            proof {
                let bs = old(heap).blocks();
                lemma_first_fit_push(bs, grown_block(needed as int), needed as int);
                lemma_span_split(heap.blocks(), bs.len() as int);
                assert(heap.blocks().take(bs.len() as int) =~= bs);
                assert(addr_of(heap.start(), heap.blocks(), bs.len() as int) == old(heap).end());
            }
            match heap.try_alloc(needed) {
                Some(p) => {
                    assert(p == old(heap).end() + HEADER_SIZE);
                    p
                },
                None => {
                    proof {
                        assert(false);
                    }
                    0
                },
            }
        },
    }
}

/// Whether a free block can take `size` bytes, so that `kmalloc` serves the
/// request without growing the heap.
pub fn heap_fits(heap: &Heap, size: usize) -> (r: bool)
    requires
        size <= usize::MAX - 15,
    ensures
        r == (first_fit(heap.blocks(), aligned(size as int), 0) is Some),
{
    let needed = align_up(size);
    let mut i: usize = 0;
    while i < heap.blocks.len()
        invariant
            i <= heap.blocks@.len(),
            needed == aligned(size as int),
            first_fit(heap.blocks(), needed as int, 0) == first_fit(heap.blocks(), needed as int, i as int),
        decreases heap.blocks@.len() - i,
    {
        let b = heap.blocks[i];
        if !b.used && b.size >= needed {
            return true;
        }
        i = i + 1;
    }
    false
}

/// The block whose payload starts at `ptr`, if any: what `kfree` accepts
/// is a null pointer or the payload of a block in use.
pub fn payload_block_of(heap: &Heap, ptr: usize) -> (r: Option<usize>)
    requires
        heap.wf(),
    ensures
        r == match payload_block(heap.start(), heap.blocks(), ptr as int, 0) {
            Some(i) => Some(i as usize),
            None => None::<usize>,
        },
{
    let ghost bs = heap.blocks@;
    proof {
        assert(bs.take(0) =~= Seq::<Block>::empty());
    }
    let mut cur: usize = heap.start;
    let mut i: usize = 0;
    while i < heap.blocks.len()
        invariant
            bs == heap.blocks@,
            heap.wf(),
            i <= bs.len(),
            cur == addr_of(heap.start as int, bs, i as int),
            payload_block(heap.start as int, bs, ptr as int, 0) == payload_block(
                heap.start as int,
                bs,
                ptr as int,
                i as int,
            ),
        decreases bs.len() - i,
    {
        proof {
            lemma_span_take(bs, i as int);
            lemma_span_split(bs, i as int + 1);
            lemma_span_nonneg(bs.skip(i + 1));
        }
        if cur + HEADER_SIZE == ptr {
            return Some(i);
        }
        let b = heap.blocks[i];
        cur = cur + HEADER_SIZE + b.size;
        i = i + 1;
    }
    None
}

/// Releases the block whose payload is at `ptr` (nothing for a null
/// pointer), merging it with the free blocks next to it.
pub fn kfree(heap: &mut Heap, ptr: usize)
    requires
        old(heap).wf(),
        ptr == 0 || (payload_block(old(heap).start(), old(heap).blocks(), ptr as int, 0) matches Some(
            i,
        ) && old(heap).blocks()[i].used),
    ensures
        final(heap).wf(),
        final(heap).start() == old(heap).start(),
        final(heap).end() == old(heap).end(),
        ptr == 0 ==> final(heap).blocks() == old(heap).blocks(),
        ptr != 0 ==> final(heap).blocks() == released(
            old(heap).blocks(),
            payload_block(old(heap).start(), old(heap).blocks(), ptr as int, 0)->0,
        ),
{
    if ptr == 0 {
        return;
    }
    let ghost bs = heap.blocks@;
    proof {
        lemma_payload_block(heap.start as int, bs, ptr as int, 0);
        assert(bs.take(0) =~= Seq::<Block>::empty());
    }
    let mut cur: usize = heap.start;
    let mut i: usize = 0;
    while i < heap.blocks.len()
        invariant
            bs == heap.blocks@,
            heap.wf(),
            *heap == *old(heap),
            i <= bs.len(),
            cur == addr_of(heap.start as int, bs, i as int),
            payload_block(heap.start as int, bs, ptr as int, 0) == payload_block(
                heap.start as int,
                bs,
                ptr as int,
                i as int,
            ),
        decreases bs.len() - i,
    {
        proof {
            lemma_span_take(bs, i as int);
            lemma_span_split(bs, i as int + 1);
            lemma_span_nonneg(bs.skip(i + 1));
        }
        if cur + HEADER_SIZE == ptr {
            heap.coalesce_free(i);
            return;
        }
        let b = heap.blocks[i];
        cur = cur + HEADER_SIZE + b.size;
        i = i + 1;
    }
}

/// The screen after the dump line of block `i`.
pub open spec fn dump_block(g: Geometry, s: Screen, start: int, bs: Seq<Block>, i: int) -> Screen {
    let s = put_chars(g, s, "["@);
    let s = put_chars(g, s, byte_chars(dec_digits(i as nat)));
    let s = put_chars(g, s, " ] addr="@);
    let s = put_chars(g, s, byte_chars(hex64_text(addr_of(start, bs, i) as u64)));
    let s = put_chars(g, s, " size="@);
    let s = put_chars(g, s, byte_chars(dec_digits(bs[i].size as nat)));
    let s = put_chars(g, s, " "@);
    let s = put_chars(
        g,
        s,
        if bs[i].used {
            "USED"@
        } else {
            "free"@
        },
    );
    put_chars(g, s, "\n"@)
}

/// The screen after the dump lines of the first `k` blocks.
pub open spec fn dump_blocks(g: Geometry, s: Screen, start: int, bs: Seq<Block>, k: int) -> Screen
    decreases k,
{
    if k <= 0 {
        s
    } else {
        dump_block(g, dump_blocks(g, s, start, bs, k - 1), start, bs, k - 1)
    }
}

/// Writes `v` as `0x` and sixteen hexadecimal digits.
pub fn print_hex_usize(term: &mut Terminal, v: usize)
    requires
        old(term).wf(),
    ensures
        final(term).wf(),
        final(term).geom() == old(term).geom(),
        final(term).screen() == put_chars(old(term).geom(), old(term).screen(), byte_chars(hex64_text(v as u64))),
{
    term.print_hex64(v as u64);
}

/// Writes the block list: index, header address, payload size and state
/// of each block, between a title and an end line.
pub fn kmalloc_dump(heap: &Heap, term: &mut Terminal)
    requires
        heap.wf(),
        old(term).wf(),
    ensures
        final(term).wf(),
        final(term).geom() == old(term).geom(),
        final(term).screen() == put_chars(
            old(term).geom(),
            dump_blocks(
                old(term).geom(),
                put_chars(old(term).geom(), old(term).screen(), "\n---- Heap Dump ----\n"@),
                heap.start(),
                heap.blocks(),
                heap.blocks().len() as int,
            ),
            "----- end -----\n"@,
        ),
{
    let ghost g = term.geom();
    term.print("\n---- Heap Dump ----\n");
    let ghost s1 = term.screen();
    let ghost bs = heap.blocks@;
    let mut cur: usize = heap.start;
    let mut idx: usize = 0;
    proof {
        assert(bs.take(0) =~= Seq::<Block>::empty());
    }
    while idx < heap.blocks.len()
        invariant
            bs == heap.blocks@,
            heap.wf(),
            idx <= bs.len(),
            cur == addr_of(heap.start as int, bs, idx as int),
            term.wf(),
            term.geom() == g,
            term.screen() == dump_blocks(g, s1, heap.start as int, bs, idx as int),
        decreases bs.len() - idx,
    {
        proof {
            lemma_span_take(bs, idx as int);
            lemma_span_split(bs, idx as int + 1);
            lemma_span_nonneg(bs.skip(idx + 1));
        }
        let b = heap.blocks[idx];
        term.print("[");
        term.print_usize(idx);
        term.print(" ] addr=");
        print_hex_usize(term, cur);
        term.print(" size=");
        term.print_usize(b.size);
        term.print(" ");
        term.print(
            if b.used {
                "USED"
            } else {
                "free"
            },
        );
        term.print("\n");
        cur = cur + HEADER_SIZE + b.size;
        idx = idx + 1;
    }
    term.print("----- end -----\n");
}

/// `n` rounded up to a multiple of 16.
fn align_up(n: usize) -> (r: usize)
    requires
        n <= usize::MAX - 15,
    ensures
        r == aligned(n as int),
        r >= n,
        r <= n + 15,
{
    let y: usize = n + 15;
    assert(y & !15usize == (y / 16) * 16) by (bit_vector);
    assert((y / 16) * 16 <= y && y < (y / 16) * 16 + 16) by (nonlinear_arith);
    (n + (ALIGN - 1)) & !(ALIGN - 1)
}

/// Headers come one after another: an earlier block's header lies lower.
proof fn lemma_span_take_increasing(bs: Seq<Block>, j: int, i: int)
    requires
        0 <= j < i <= bs.len(),
    ensures
        span(bs.take(j)) < span(bs.take(i)),
    decreases i - j,
{
    lemma_span_take(bs, i - 1);
    if j < i - 1 {
        lemma_span_take_increasing(bs, j, i - 1);
    }
}

/// The payload scan from block `k` stops at block `i` when no block before
/// `i` has its payload at `ptr` and block `i` has.
proof fn lemma_payload_block_at(start: int, bs: Seq<Block>, ptr: int, k: int, i: int)
    requires
        0 <= k <= i < bs.len(),
        addr_of(start, bs, i) + HEADER_SIZE == ptr,
        forall|j: int| k <= j < i ==> #[trigger] addr_of(start, bs, j) + HEADER_SIZE != ptr,
    ensures
        payload_block(start, bs, ptr, k) == Some(i),
    decreases i - k,
{
    if k < i {
        lemma_payload_block_at(start, bs, ptr, k + 1, i);
    }
}

/// Freeing the pointer that `kmalloc` handed out of an existing free block
/// finds that block again by its payload address, and gives the blocks back
/// as they were before the allocation, whenever the block was split or has
/// no free block after it to merge with, and has no free block before it.
pub proof fn law_kfree_undoes_kmalloc(start: int, bs: Seq<Block>, needed: int)
    requires
        first_fit(bs, needed, 0) is Some,
        needed >= 0,
        ({
            let i = first_fit(bs, needed, 0)->0;
            &&& bs[i].size > needed + HEADER_SIZE + ALIGN || i + 1 == bs.len() || bs[i + 1].used
            &&& i == 0 || bs[i - 1].used
        }),
    ensures
        ({
            let i = first_fit(bs, needed, 0)->0;
            let after = taken(bs, i, needed);
            &&& after[i].used
            &&& payload_block(start, after, addr_of(start, bs, i) + HEADER_SIZE, 0) == Some(i)
            &&& released(after, i) == bs
        }),
{
    lemma_first_fit(bs, needed, 0);
    let i = first_fit(bs, needed, 0)->0;
    let after = taken(bs, i, needed);
    lemma_taken_span(bs, i, needed);
    let ptr = addr_of(start, bs, i) + HEADER_SIZE;
    assert forall|j: int| 0 <= j <= i implies #[trigger] after.take(j) == bs.take(j) by {
        assert(after.take(j) =~= after.take(i).take(j));
        assert(bs.take(j) =~= bs.take(i).take(j));
    }
    assert forall|j: int| 0 <= j < i implies #[trigger] addr_of(start, after, j) + HEADER_SIZE != ptr by {
        assert(after.take(j) == bs.take(j));
        lemma_span_take_increasing(bs, j, i);
    }
    assert(after.take(i) == bs.take(i));
    lemma_payload_block_at(start, after, ptr, 0, i);
    let b = bs[i];
    if i > 0 {
        assert(after[i - 1] == bs[i - 1]);
    }
    if b.size > needed + HEADER_SIZE + ALIGN {
        let f = after.update(i, Block { size: after[i].size, used: false });
        assert(!f[i + 1].used);
        assert(merged(f, i) =~= bs);
    } else {
        assert(after.update(i, Block { size: after[i].size, used: false }) =~= bs);
    }
}

/// A block's dump line reads `[i ] addr=A size=S` followed by `USED` when
/// the block is handed out and `free` when it is not.
pub proof fn law_dump_line_names_block_state(g: Geometry, s: Screen, start: int, bs: Seq<Block>, i: int)
    ensures
        dump_block(g, s, start, bs, i) == put_chars(
            g,
            s,
            "["@ + byte_chars(dec_digits(i as nat)) + " ] addr="@ + byte_chars(
                hex64_text(addr_of(start, bs, i) as u64),
            ) + " size="@ + byte_chars(dec_digits(bs[i].size as nat)) + " "@ + (if bs[i].used {
                "USED"@
            } else {
                "free"@
            }) + "\n"@,
        ),
        bs[i].used ==> dump_block(g, s, start, bs, i) == put_chars(
            g,
            put_chars(
                g,
                s,
                "["@ + byte_chars(dec_digits(i as nat)) + " ] addr="@ + byte_chars(
                    hex64_text(addr_of(start, bs, i) as u64),
                ) + " size="@ + byte_chars(dec_digits(bs[i].size as nat)) + " "@,
            ),
            "USED\n"@,
        ),
        !bs[i].used ==> dump_block(g, s, start, bs, i) == put_chars(
            g,
            put_chars(
                g,
                s,
                "["@ + byte_chars(dec_digits(i as nat)) + " ] addr="@ + byte_chars(
                    hex64_text(addr_of(start, bs, i) as u64),
                ) + " size="@ + byte_chars(dec_digits(bs[i].size as nat)) + " "@,
            ),
            "free\n"@,
        ),
{
    let p1 = "["@;
    let p2 = byte_chars(dec_digits(i as nat));
    let p3 = " ] addr="@;
    let p4 = byte_chars(hex64_text(addr_of(start, bs, i) as u64));
    let p5 = " size="@;
    let p6 = byte_chars(dec_digits(bs[i].size as nat));
    let p7 = " "@;
    let p8 = if bs[i].used {
        "USED"@
    } else {
        "free"@
    };
    let p9 = "\n"@;
    lemma_put_chars_concat(g, s, p1, p2);
    lemma_put_chars_concat(g, s, p1 + p2, p3);
    lemma_put_chars_concat(g, s, p1 + p2 + p3, p4);
    lemma_put_chars_concat(g, s, p1 + p2 + p3 + p4, p5);
    lemma_put_chars_concat(g, s, p1 + p2 + p3 + p4 + p5, p6);
    lemma_put_chars_concat(g, s, p1 + p2 + p3 + p4 + p5 + p6, p7);
    lemma_put_chars_concat(g, s, p1 + p2 + p3 + p4 + p5 + p6 + p7, p8);
    lemma_put_chars_concat(g, s, p1 + p2 + p3 + p4 + p5 + p6 + p7 + p8, p9);
    let pre = p1 + p2 + p3 + p4 + p5 + p6 + p7;
    lemma_put_chars_concat(g, s, pre, p8 + p9);
    assert(pre + p8 + p9 =~= pre + (p8 + p9));
    reveal_strlit("USED");
    reveal_strlit("free");
    reveal_strlit("\n");
    reveal_strlit("USED\n");
    reveal_strlit("free\n");
    assert("USED"@ + "\n"@ =~= "USED\n"@);
    assert("free"@ + "\n"@ =~= "free\n"@);
}

} // verus!
