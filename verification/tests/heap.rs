use hobby_kernel::memory::heap::{
    fresh_ready, heap_fits, kfree, kmalloc, kmalloc_init, kmalloc_init_ready, kmalloc_ready, payload_block_of,
    Block, Heap, HEAP_MAX_SIZE, HEAP_START,
};
use hobby_kernel::memory::pmm::{get_free_page_count, init_pmm, MemRegion, Pmm};
use hobby_kernel::memory::vmm::{get_phys_addr, PhysMem};

const CR3: u64 = 0x2000;
const START: usize = HEAP_START as usize;

fn machine() -> (PhysMem, Pmm) {
    let map = vec![
        MemRegion { base: 0x1000, length: 0x1000, usable: true },
        MemRegion { base: 0x100000, length: 0x10000, usable: true },
    ];
    (PhysMem::new(vec![0u64; 0x110000 / 8]), init_pmm(&map))
}

fn blocks(h: &Heap) -> Vec<(usize, bool)> {
    h.block_list().iter().map(|b: &Block| (b.size, b.used)).collect()
}

#[test]
fn heap_starts_as_one_free_block_on_fresh_pages() {
    let (mut mem, mut pmm) = machine();
    let h = kmalloc_init(&mut mem, &mut pmm, CR3, START, 0x2000);
    assert_eq!(blocks(&h), vec![(0x2000 - 24, false)]);
    assert_eq!(h.end_address(), START + 0x2000);
    // Two data frames and three page tables.
    assert_eq!(get_free_page_count(&pmm), 11);
    assert_eq!(get_phys_addr(&mem, CR3, START), Some(0x100000));
    assert_eq!(get_phys_addr(&mem, CR3, START + 0x1008), Some(0x104008));
}

#[test]
fn heap_size_rounds_up_to_pages() {
    let (mut mem, mut pmm) = machine();
    let h = kmalloc_init(&mut mem, &mut pmm, CR3, START, 5000);
    assert_eq!(blocks(&h), vec![(0x2000 - 24, false)]);
}

#[test]
fn kmalloc_splits_first_fit_block() {
    let (mut mem, mut pmm) = machine();
    let mut h = kmalloc_init(&mut mem, &mut pmm, CR3, START, 0x2000);
    let p1 = kmalloc(&mut h, &mut mem, &mut pmm, CR3, 100);
    assert_eq!(p1, START + 24);
    let p2 = kmalloc(&mut h, &mut mem, &mut pmm, CR3, 50);
    assert_eq!(p2, START + 24 + 112 + 24);
    assert_eq!(blocks(&h), vec![(112, true), (64, true), (0x2000 - 24 - 112 - 24 - 64 - 24, false)]);
}

#[test]
fn kfree_then_kmalloc_reuses_the_block() {
    let (mut mem, mut pmm) = machine();
    let mut h = kmalloc_init(&mut mem, &mut pmm, CR3, START, 0x2000);
    let p1 = kmalloc(&mut h, &mut mem, &mut pmm, CR3, 100);
    let p2 = kmalloc(&mut h, &mut mem, &mut pmm, CR3, 50);
    kfree(&mut h, p1);
    assert_eq!(blocks(&h)[0], (112, false));
    // 80 bytes fit in the freed block, which is too small to split.
    let p3 = kmalloc(&mut h, &mut mem, &mut pmm, CR3, 80);
    assert_eq!(p3, p1);
    assert_eq!(blocks(&h)[0], (112, true));
    // Freeing the middle block merges it with the free block after it.
    kfree(&mut h, p2);
    assert_eq!(blocks(&h), vec![(112, true), (0x2000 - 24 - 112 - 24, false)]);
}

#[test]
fn kfree_undoes_kmalloc_of_a_split_block() {
    let (mut mem, mut pmm) = machine();
    let mut h = kmalloc_init(&mut mem, &mut pmm, CR3, START, 0x2000);
    let before = blocks(&h);
    let p = kmalloc(&mut h, &mut mem, &mut pmm, CR3, 300);
    assert_ne!(blocks(&h), before);
    kfree(&mut h, p);
    assert_eq!(blocks(&h), before);
}

#[test]
fn kfree_of_null_does_nothing() {
    let (mut mem, mut pmm) = machine();
    let mut h = kmalloc_init(&mut mem, &mut pmm, CR3, START, 0x2000);
    let before = blocks(&h);
    kfree(&mut h, 0);
    assert_eq!(blocks(&h), before);
}

#[test]
fn kmalloc_grows_the_heap_when_nothing_fits() {
    let (mut mem, mut pmm) = machine();
    let mut h = kmalloc_init(&mut mem, &mut pmm, CR3, START, 0x2000);
    let free_before = get_free_page_count(&pmm);
    let p = kmalloc(&mut h, &mut mem, &mut pmm, CR3, 0x3000);
    assert_eq!(p, START + 0x2000 + 24);
    assert_eq!(h.end_address(), START + 0x6000);
    let b = blocks(&h);
    assert_eq!(b[0], (0x2000 - 24, false));
    assert_eq!(b[1], (0x3000, true));
    // 0x3000 + 24 + 4096 rounded to 16 is 0x4020: four whole pages.
    assert_eq!(free_before - get_free_page_count(&pmm), 4);
    assert_eq!(b[1].0 + 24 + b[2].0 + 24, 4 * 4096);
    assert_eq!(get_phys_addr(&mem, CR3, START + 0x2000).is_some(), true);
}

#[test]
fn payload_addresses_name_their_blocks() {
    let (mut mem, mut pmm) = machine();
    let mut h = kmalloc_init(&mut mem, &mut pmm, CR3, START, 0x2000);
    let p1 = kmalloc(&mut h, &mut mem, &mut pmm, CR3, 100);
    let p2 = kmalloc(&mut h, &mut mem, &mut pmm, CR3, 50);
    assert_eq!(payload_block_of(&h, p1), Some(0));
    assert_eq!(payload_block_of(&h, p2), Some(1));
    assert_eq!(payload_block_of(&h, p2 + 64 + 24), Some(2));
    assert_eq!(payload_block_of(&h, p1 + 8), None);
    assert_eq!(payload_block_of(&h, START), None);
}

#[test]
fn freed_neighbours_merge_into_one_block() {
    let (mut mem, mut pmm) = machine();
    let mut h = kmalloc_init(&mut mem, &mut pmm, CR3, START, 0x1000);
    let a = kmalloc(&mut h, &mut mem, &mut pmm, CR3, 64);
    let b = kmalloc(&mut h, &mut mem, &mut pmm, CR3, 128);
    let c = kmalloc(&mut h, &mut mem, &mut pmm, CR3, 1024);
    let d = kmalloc(&mut h, &mut mem, &mut pmm, CR3, 37);
    kfree(&mut h, b);
    kfree(&mut h, c);
    // b and c form one free block of 128 + 24 + 1024 bytes.
    assert_eq!(blocks(&h)[1], (128 + 24 + 1024, false));
    assert_eq!(blocks(&h).len(), 4);
    let e = kmalloc(&mut h, &mut mem, &mut pmm, CR3, 1152);
    assert_eq!(e, b);
    kfree(&mut h, a);
    kfree(&mut h, d);
    kfree(&mut h, e);
    assert_eq!(blocks(&h), vec![(0x1000 - 24, false)]);
}

#[test]
fn fits_tells_when_no_growth_is_needed() {
    let (mut mem, mut pmm) = machine();
    let mut h = kmalloc_init(&mut mem, &mut pmm, CR3, START, 0x1000);
    // The one free block holds 4072 bytes; requests round up to 16.
    assert!(heap_fits(&h, 4064));
    assert!(!heap_fits(&h, 4065));
    let p = kmalloc(&mut h, &mut mem, &mut pmm, CR3, 4064);
    assert!(!heap_fits(&h, 1));
    kfree(&mut h, p);
    assert!(heap_fits(&h, 1));
}

#[test]
fn readiness_of_heap_calls() {
    let (mut mem, mut pmm) = machine();
    // 16 free frames: 1 MiB of heap cannot be backed, 8 KiB can.
    assert!(!kmalloc_init_ready(&mem, &pmm, CR3, START, 1 << 20));
    assert!(kmalloc_init_ready(&mem, &pmm, CR3, START, 0x2000));
    assert!(!kmalloc_init_ready(&mem, &pmm, CR3, START + 8, 0x2000));
    assert!(!kmalloc_init_ready(&mem, &pmm, CR3, START, 40));
    // Two data frames and three tables: 13 pages can be backed, 14 cannot.
    assert!(fresh_ready(&mem, &pmm, CR3, START, 13));
    assert!(!fresh_ready(&mem, &pmm, CR3, START, 14));
    let mut h = kmalloc_init(&mut mem, &mut pmm, CR3, START, 0x2000);
    assert!(kmalloc_ready(&h, &mem, &pmm, CR3, 100));
    assert!(!kmalloc_ready(&h, &mem, &pmm, CR3, 0));
    // 11 free frames: growing by 4 pages works, by 12 does not.
    assert!(kmalloc_ready(&h, &mem, &pmm, CR3, 0x3000));
    assert!(!kmalloc_ready(&h, &mem, &pmm, CR3, 0xb000));
    assert!(!kmalloc_ready(&h, &mem, &pmm, CR3, HEAP_MAX_SIZE));
    kmalloc(&mut h, &mut mem, &mut pmm, CR3, 0x3000);
    assert_eq!(h.end_address(), START + 0x6000);
}
