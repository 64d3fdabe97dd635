use hobby_kernel::memory::pmm::{
    alloc_page, bitmap_site, free_page, get_free_memory, get_free_page_count, get_total_page_count,
    get_usable_memory, get_usable_page_count, highest_address, init_pmm, page_in_use, plan_pmm,
    MemRegion, PmmInitError,
};

fn region(base: u64, length: u64, usable: bool) -> MemRegion {
    MemRegion { base, length, usable }
}

fn small_map() -> Vec<MemRegion> {
    vec![
        region(0x1000, 0x9e000, true),
        region(0xf0000, 0x10000, false),
        region(0x100000, 0x100000, true),
        region(0x200000, 0x1000, false),
    ]
}

#[test]
fn pmm_plan_of_a_small_map() {
    let map = small_map();
    assert_eq!(highest_address(&map), Some(0x201000));
    let l = plan_pmm(&map).unwrap();
    assert_eq!(l.highest, 0x201000);
    assert_eq!(l.total_pages, 0x201);
    assert_eq!(l.bitmap_bytes, 65);
    assert_eq!(l.bitmap_pages, 1);
    assert_eq!(l.bitmap_phys, 0x1000);
    assert_eq!(bitmap_site(&map, 65), 0x1000);
}

#[test]
fn pmm_frees_usable_frames_above_one_mebibyte() {
    let map = small_map();
    let pmm = init_pmm(&map);
    assert_eq!(get_total_page_count(&pmm), 0x201);
    assert_eq!(get_free_page_count(&pmm), 256);
    assert_eq!(get_usable_page_count(&pmm), 256);
    assert_eq!(get_free_memory(&pmm), 256 * 4096);
    assert_eq!(get_usable_memory(&pmm), 256 * 4096);
    assert!(page_in_use(&pmm, 0));
    assert!(page_in_use(&pmm, 1));
    assert!(page_in_use(&pmm, 0xff));
    assert!(!page_in_use(&pmm, 0x100));
    assert!(!page_in_use(&pmm, 0x1ff));
    assert!(page_in_use(&pmm, 0x200));
}

#[test]
fn pmm_skips_the_bitmap_frames() {
    // The bitmap lands at the start of the only usable region, above 1 MiB.
    let map = vec![region(0x100000, 0x4000, true)];
    let l = plan_pmm(&map).unwrap();
    assert_eq!(l.bitmap_phys, 0x100000);
    let pmm = init_pmm(&map);
    assert_eq!(get_free_page_count(&pmm), 3);
    assert!(page_in_use(&pmm, 0x100));
    assert!(!page_in_use(&pmm, 0x101));
}

#[test]
fn pmm_allocates_lowest_free_frame() {
    let map = small_map();
    let mut pmm = init_pmm(&map);
    assert_eq!(alloc_page(&mut pmm), Some(0x100000));
    assert_eq!(alloc_page(&mut pmm), Some(0x101000));
    assert_eq!(get_free_page_count(&pmm), 254);
    assert!(page_in_use(&pmm, 0x100));
}

#[test]
fn pmm_free_then_alloc_gives_the_frame_back() {
    let map = small_map();
    let mut pmm = init_pmm(&map);
    let a = alloc_page(&mut pmm).unwrap();
    let b = alloc_page(&mut pmm).unwrap();
    free_page(&mut pmm, a);
    assert_eq!(get_free_page_count(&pmm), 255);
    assert!(!page_in_use(&pmm, a / 4096));
    assert_eq!(alloc_page(&mut pmm), Some(a));
    free_page(&mut pmm, b);
    free_page(&mut pmm, a);
    assert_eq!(get_free_page_count(&pmm), 256);
}

#[test]
fn pmm_runs_out() {
    let map = vec![region(0x1000, 0x1000, true), region(0x100000, 0x2000, true)];
    let mut pmm = init_pmm(&map);
    assert_eq!(get_free_page_count(&pmm), 2);
    assert!(alloc_page(&mut pmm).is_some());
    assert!(alloc_page(&mut pmm).is_some());
    assert_eq!(alloc_page(&mut pmm), None);
    assert_eq!(get_free_page_count(&pmm), 0);
}

#[test]
fn pmm_rejects_an_empty_map() {
    assert_eq!(plan_pmm(&[]).unwrap_err(), PmmInitError::EmptyMemoryMap);
    assert_eq!(plan_pmm(&[region(0, 0, true)]).unwrap_err(), PmmInitError::EmptyMemoryMap);
}

#[test]
fn pmm_rejects_addresses_that_overflow() {
    let map = vec![region(u64::MAX - 10, 100, true)];
    assert_eq!(highest_address(&map), None);
    assert_eq!(plan_pmm(&map).unwrap_err(), PmmInitError::AddressOverflow);
}

#[test]
fn pmm_needs_room_for_the_bitmap() {
    let reserved_only = vec![region(0x100000, 0x100000, false)];
    assert_eq!(plan_pmm(&reserved_only).unwrap_err(), PmmInitError::NoRoomForBitmap);
    // The bitmap never sits at address zero: a one-page region there has
    // no room for it after its first page.
    let one_page = vec![region(0, 0x1000, true)];
    assert_eq!(plan_pmm(&one_page).unwrap_err(), PmmInitError::NoRoomForBitmap);
}

#[test]
fn pmm_bitmap_skips_page_zero() {
    let map = vec![region(0, 0x9F000, true), region(0x100000, 0x100000, true)];
    let l = plan_pmm(&map).unwrap();
    assert_eq!(l.bitmap_phys, 0x1000);
    assert_eq!(l.total_pages, 512);
    let pmm = init_pmm(&map);
    assert_eq!(get_total_page_count(&pmm), 512);
    assert_eq!(get_free_page_count(&pmm), 256);
    assert!(page_in_use(&pmm, 1));
}
