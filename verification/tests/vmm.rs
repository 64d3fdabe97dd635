use hobby_kernel::interrupt::pic::{enable_lapic_pic_mode, LAPIC_VIRT};
use hobby_kernel::memory::pmm::{get_free_page_count, init_pmm, MemRegion, Pmm};
use hobby_kernel::memory::vmm::{
    get_phys_addr, map_page, map_ready, split_indices, unmap_page, walk_existing, PhysMem, PTE_NO_CACHE,
    PTE_PRESENT, PTE_WRITABLE,
};

const CR3: u64 = 0x2000;

fn machine() -> (PhysMem, Pmm) {
    let map = vec![
        MemRegion { base: 0x1000, length: 0x1000, usable: true },
        MemRegion { base: 0x100000, length: 0x10000, usable: true },
    ];
    let pmm = init_pmm(&map);
    let mem = PhysMem::new(vec![0u64; 0x110000 / 8]);
    (mem, pmm)
}

fn word(mem: &PhysMem, phys: u64) -> u64 {
    mem.words()[(phys / 8) as usize]
}

#[test]
fn virtual_address_indices() {
    assert_eq!(split_indices(0x4000_0000), (0, 1, 0, 0));
    assert_eq!(split_indices(0xffff_8000_0020_3000), (256, 0, 1, 3));
    assert_eq!(split_indices(0x0000_7fff_ffff_f000), (255, 511, 511, 511));
}

#[test]
fn map_builds_missing_tables_from_fresh_frames() {
    let (mut mem, mut pmm) = machine();
    assert_eq!(get_free_page_count(&pmm), 16);
    map_page(&mut mem, &mut pmm, CR3, 0x4000_0000, 0x5000, PTE_WRITABLE);
    assert_eq!(get_free_page_count(&pmm), 13);
    assert_eq!(word(&mem, CR3), 0x100000 | 3);
    assert_eq!(word(&mem, 0x100000 + 8), 0x101000 | 3);
    assert_eq!(word(&mem, 0x101000), 0x102000 | 3);
    assert_eq!(word(&mem, 0x102000), 0x5000 | 3);
    // A second page in the same table needs no new frames.
    map_page(&mut mem, &mut pmm, CR3, 0x4000_1000, 0x7000, 0);
    assert_eq!(get_free_page_count(&pmm), 13);
    assert_eq!(word(&mem, 0x102008), 0x7000 | 1);
}

#[test]
fn translate_after_map_and_unmap() {
    let (mut mem, mut pmm) = machine();
    assert_eq!(get_phys_addr(&mem, CR3, 0x4000_0123), None);
    map_page(&mut mem, &mut pmm, CR3, 0x4000_0000, 0x5000, PTE_WRITABLE);
    assert_eq!(get_phys_addr(&mem, CR3, 0x4000_0123), Some(0x5123));
    assert_eq!(get_phys_addr(&mem, CR3, 0x4000_0fff), Some(0x5fff));
    assert_eq!(get_phys_addr(&mem, CR3, 0x4000_1000), None);
    assert_eq!(walk_existing(&mem, CR3, 0x4000_0000), Some((0x102000, 0, 0x5003)));
    unmap_page(&mut mem, CR3, 0x4000_0000);
    assert_eq!(get_phys_addr(&mem, CR3, 0x4000_0123), None);
    assert_eq!(walk_existing(&mem, CR3, 0x4000_0000), Some((0x102000, 0, 0)));
    // Unmapping where no table exists changes nothing.
    unmap_page(&mut mem, CR3, 0x8000_0000);
    assert_eq!(word(&mem, CR3 + 16), 0);
}

#[test]
fn local_apic_page_is_mapped_uncached() {
    let (mut mem, mut pmm) = machine();
    enable_lapic_pic_mode(&mut mem, &mut pmm, CR3, 0xFEE0_0900);
    let (_, _, e) = walk_existing(&mem, CR3, LAPIC_VIRT as usize).unwrap();
    assert_eq!(e, 0xFEE0_0000 | PTE_PRESENT | PTE_WRITABLE | PTE_NO_CACHE);
    assert_eq!(get_phys_addr(&mem, CR3, LAPIC_VIRT as usize + 0x350), Some(0xFEE0_0350));
}

#[test]
fn map_readiness() {
    let (mem, mut pmm) = machine();
    assert!(map_ready(&mem, &pmm, CR3, 0x4000_0000));
    // A table address outside the modelled memory.
    assert!(!map_ready(&mem, &pmm, 0x200_0000, 0x4000_0000));
    // Use up all but two frames: a walk that needs three tables cannot run.
    for _ in 0..14 {
        hobby_kernel::memory::pmm::alloc_page(&mut pmm).unwrap();
    }
    assert!(!map_ready(&mem, &pmm, CR3, 0x4000_0000));
    let (mut mem2, mut pmm2) = machine();
    map_page(&mut mem2, &mut pmm2, CR3, 0x4000_0000, 0x5000, 0);
    for _ in 0..13 {
        hobby_kernel::memory::pmm::alloc_page(&mut pmm2).unwrap();
    }
    // No frame left, but the tables for the next page exist.
    assert!(map_ready(&mem2, &pmm2, CR3, 0x4000_1000));
    assert!(!map_ready(&mem2, &pmm2, CR3, 0x8000_0000));
}
