use os4::config::{page_round_up, MAX_MAP_LEN, PAGE_SIZE};
use os4::mm::{Access, Location, MapPermission, MemorySet, PageFault, Region, PROT_EXEC, PROT_READ, PROT_WRITE};
use os4::syscall::{sys_mmap, sys_munmap};
use os4::task::Kernel;

fn one_task() -> Kernel {
    let mut kernel = Kernel::new();
    assert_eq!(kernel.spawn(), 0);
    kernel.run_first_task();
    assert_eq!(kernel.current(), Some(0));
    kernel
}

fn regions_of(kernel: &Kernel, task: usize) -> Vec<Region> {
    let space = kernel.memory_set(task);
    (0..space.area_count()).map(|i| space.region(i)).collect()
}

#[test]
fn map_write_unmap_unmap_again() {
    let mut kernel = one_task();
    assert_eq!(sys_mmap(&mut kernel, 0x10000, 4096, PROT_READ | PROT_WRITE), 0);
    for va in [0x10000usize, 0x10001, 0x107ff, 0x10fff] {
        assert_eq!(kernel.translated_write(0, va, &vec![0xabu8]), Ok(()));
        assert_eq!(kernel.memory_set(0).read_bytes(va, 1), Ok(vec![0xabu8]));
    }
    let whole = vec![0x5au8; 4096];
    assert_eq!(kernel.translated_write(0, 0x10000, &whole), Ok(()));
    assert_eq!(kernel.memory_set(0).read_bytes(0x10000, 4096), Ok(whole));
    assert_eq!(sys_munmap(&mut kernel, 0x10000, 4096), 0);
    assert_eq!(sys_munmap(&mut kernel, 0x10000, 4096), -1);
    assert_eq!(kernel.memory_set(0).area_count(), 0);
    assert_eq!(
        kernel.translated_write(0, 0x10000, &vec![1u8]),
        Err(PageFault::Unmapped { addr: 0x10000 })
    );
}

#[test]
fn every_permission_set_grants_exactly_what_it_names() {
    for prot in 1usize..=7 {
        let mut kernel = one_task();
        assert_eq!(sys_mmap(&mut kernel, 0x4000, 2 * PAGE_SIZE, prot), 0);
        let space = kernel.memory_set(0);
        for va in [0x4000usize, 0x4fff, 0x5000, 0x5fff] {
            assert_eq!(space.translate(va, Access::Read).is_ok(), prot & PROT_READ != 0);
            assert_eq!(space.translate(va, Access::Write).is_ok(), prot & PROT_WRITE != 0);
            assert_eq!(space.translate(va, Access::Execute).is_ok(), prot & PROT_EXEC != 0);
        }
        assert_eq!(
            space.translate(0x3fff, Access::Read),
            Err(PageFault::Unmapped { addr: 0x3fff })
        );
        assert_eq!(
            space.translate(0x6000, Access::Read),
            Err(PageFault::Unmapped { addr: 0x6000 })
        );
    }
}

#[test]
fn translation_names_record_and_offset() {
    let mut kernel = one_task();
    assert_eq!(sys_mmap(&mut kernel, 0x2000, PAGE_SIZE, 1), 0);
    assert_eq!(sys_mmap(&mut kernel, 0x8000, 2 * PAGE_SIZE, 3), 0);
    assert_eq!(
        kernel.translate(0, 0x2010, Access::Read),
        Ok(Location { area: 0, offset: 0x10 })
    );
    assert_eq!(
        kernel.translate(0, 0x9fff, Access::Write),
        Ok(Location { area: 1, offset: 0x1fff })
    );
    assert_eq!(
        kernel.translate(0, 0x2010, Access::Write),
        Err(PageFault::Denied { addr: 0x2010 })
    );
    assert_eq!(
        kernel.translate(0, 0x8000, Access::Execute),
        Err(PageFault::Denied { addr: 0x8000 })
    );
    assert_eq!(
        kernel.translate(0, 0xa000, Access::Read),
        Err(PageFault::Unmapped { addr: 0xa000 })
    );
    assert_eq!(PageFault::Denied { addr: 7 }.addr(), 7);
    assert_eq!(PageFault::Unmapped { addr: 9 }.addr(), 9);
}

#[test]
fn new_mapping_is_zeroed() {
    let mut kernel = one_task();
    assert_eq!(sys_mmap(&mut kernel, 0x10000, 3 * PAGE_SIZE, 1), 0);
    assert_eq!(
        kernel.memory_set(0).read_bytes(0x10000, 3 * PAGE_SIZE),
        Ok(vec![0u8; 3 * PAGE_SIZE])
    );
}

#[test]
fn length_is_rounded_up_to_pages() {
    let mut kernel = one_task();
    assert_eq!(sys_mmap(&mut kernel, 0x10000, 1, 3), 0);
    assert_eq!(sys_mmap(&mut kernel, 0x20000, 4097, 3), 0);
    assert_eq!(sys_mmap(&mut kernel, 0x30000, 8192, 5), 0);
    let rw = MapPermission { read: true, write: true, execute: false };
    let rx = MapPermission { read: true, write: false, execute: true };
    assert_eq!(
        regions_of(&kernel, 0),
        vec![
            Region { start: 0x10000, len: 4096, perm: rw },
            Region { start: 0x20000, len: 8192, perm: rw },
            Region { start: 0x30000, len: 8192, perm: rx },
        ]
    );
    assert!(kernel.translate(0, 0x10fff, Access::Write).is_ok());
    assert!(kernel.translate(0, 0x11000, Access::Write).is_err());
    assert!(kernel.translate(0, 0x21fff, Access::Write).is_ok());
    assert!(kernel.translate(0, 0x22000, Access::Write).is_err());
}

#[test]
fn overlapping_request_is_refused_and_changes_nothing() {
    let mut kernel = one_task();
    assert_eq!(sys_mmap(&mut kernel, 0x10000, 2 * PAGE_SIZE, 3), 0);
    assert_eq!(kernel.translated_write(0, 0x10004, &vec![1u8, 2, 3]), Ok(()));
    let before = regions_of(&kernel, 0);
    // the same range, a range inside, one that starts before, one that ends after,
    // one that swallows the mapping, and one that only needs its last byte rounded in
    assert_eq!(sys_mmap(&mut kernel, 0x10000, 2 * PAGE_SIZE, 3), -1);
    assert_eq!(sys_mmap(&mut kernel, 0x11000, PAGE_SIZE, 1), -1);
    assert_eq!(sys_mmap(&mut kernel, 0xf000, 2 * PAGE_SIZE, 1), -1);
    assert_eq!(sys_mmap(&mut kernel, 0x11000, 4 * PAGE_SIZE, 1), -1);
    assert_eq!(sys_mmap(&mut kernel, 0xf000, 8 * PAGE_SIZE, 7), -1);
    assert_eq!(sys_mmap(&mut kernel, 0xf000, PAGE_SIZE + 1, 7), -1);
    assert_eq!(regions_of(&kernel, 0), before);
    assert_eq!(kernel.memory_set(0).read_bytes(0x10004, 3), Ok(vec![1u8, 2, 3]));
    // neighbours on both sides are fine
    assert_eq!(sys_mmap(&mut kernel, 0xf000, PAGE_SIZE, 1), 0);
    assert_eq!(sys_mmap(&mut kernel, 0x12000, PAGE_SIZE, 1), 0);
    assert_eq!(kernel.memory_set(0).area_count(), 3);
}

#[test]
fn misaligned_start_is_refused() {
    let mut kernel = one_task();
    for start in [1usize, 0x10001, 0x10800, 0x10fff] {
        assert_eq!(sys_mmap(&mut kernel, start, PAGE_SIZE, 3), -1);
        assert_eq!(sys_munmap(&mut kernel, start, PAGE_SIZE), -1);
    }
    assert_eq!(kernel.memory_set(0).area_count(), 0);
}

#[test]
fn permission_bits_outside_the_three_are_refused() {
    let mut kernel = one_task();
    for prot in [0usize, 8, 9, 15, 16, 0x100, usize::MAX] {
        assert_eq!(sys_mmap(&mut kernel, 0x10000, PAGE_SIZE, prot), -1);
    }
    assert_eq!(kernel.memory_set(0).area_count(), 0);
}

#[test]
fn permission_bits_decode_and_encode() {
    assert_eq!(MapPermission::from_bits(0), None);
    assert_eq!(MapPermission::from_bits(8), None);
    assert_eq!(
        MapPermission::from_bits(1),
        Some(MapPermission { read: true, write: false, execute: false })
    );
    assert_eq!(
        MapPermission::from_bits(2),
        Some(MapPermission { read: false, write: true, execute: false })
    );
    assert_eq!(
        MapPermission::from_bits(4),
        Some(MapPermission { read: false, write: false, execute: true })
    );
    assert_eq!(
        MapPermission::from_bits(6),
        Some(MapPermission { read: false, write: true, execute: true })
    );
    for prot in 1usize..=7 {
        let perm = MapPermission::from_bits(prot).unwrap();
        assert_eq!(perm.bits(), prot);
        assert_eq!(perm.permits(Access::Read), prot & 1 != 0);
        assert_eq!(perm.permits(Access::Write), prot & 2 != 0);
        assert_eq!(perm.permits(Access::Execute), prot & 4 != 0);
    }
}

#[test]
fn zero_length_map_succeeds_and_records_nothing() {
    let mut kernel = one_task();
    assert_eq!(sys_mmap(&mut kernel, 0x10000, 0, 3), 0);
    assert_eq!(kernel.memory_set(0).area_count(), 0);
    assert!(kernel.translate(0, 0x10000, Access::Read).is_err());
    // still validated: start and permission bits
    assert_eq!(sys_mmap(&mut kernel, 0x10001, 0, 3), -1);
    assert_eq!(sys_mmap(&mut kernel, 0x10000, 0, 0), -1);
    // an empty range touches nothing, even inside a mapping
    assert_eq!(sys_mmap(&mut kernel, 0x10000, 2 * PAGE_SIZE, 3), 0);
    assert_eq!(sys_mmap(&mut kernel, 0x11000, 0, 3), 0);
    assert_eq!(kernel.memory_set(0).area_count(), 1);
}

#[test]
fn zero_length_unmap_is_refused() {
    let mut kernel = one_task();
    assert_eq!(sys_munmap(&mut kernel, 0x10000, 0), -1);
    assert_eq!(sys_mmap(&mut kernel, 0x10000, PAGE_SIZE, 3), 0);
    assert_eq!(sys_munmap(&mut kernel, 0x10000, 0), -1);
    assert_eq!(kernel.memory_set(0).area_count(), 1);
}

#[test]
fn unmap_needs_whole_records() {
    let mut kernel = one_task();
    assert_eq!(sys_mmap(&mut kernel, 0x10000, 2 * PAGE_SIZE, 3), 0);
    // a part of the record, from either end, or the middle of a larger one
    assert_eq!(sys_munmap(&mut kernel, 0x10000, PAGE_SIZE), -1);
    assert_eq!(sys_munmap(&mut kernel, 0x11000, PAGE_SIZE), -1);
    // more than the record: pages around it were never mapped
    assert_eq!(sys_munmap(&mut kernel, 0x10000, 3 * PAGE_SIZE), -1);
    assert_eq!(sys_munmap(&mut kernel, 0xf000, 3 * PAGE_SIZE), -1);
    // a range that was never mapped
    assert_eq!(sys_munmap(&mut kernel, 0x40000, PAGE_SIZE), -1);
    assert_eq!(kernel.memory_set(0).area_count(), 1);
    // a length inside the last page names the whole page
    assert_eq!(sys_munmap(&mut kernel, 0x10000, PAGE_SIZE + 1), 0);
    assert_eq!(kernel.memory_set(0).area_count(), 0);
}

#[test]
fn unmap_takes_a_union_of_records() {
    let mut kernel = one_task();
    assert_eq!(sys_mmap(&mut kernel, 0x12000, PAGE_SIZE, 1), 0);
    assert_eq!(sys_mmap(&mut kernel, 0x10000, PAGE_SIZE, 3), 0);
    assert_eq!(sys_mmap(&mut kernel, 0x11000, PAGE_SIZE, 5), 0);
    assert_eq!(sys_mmap(&mut kernel, 0x20000, PAGE_SIZE, 7), 0);
    // the last page of the range belongs to no record
    assert_eq!(sys_munmap(&mut kernel, 0x10000, 4 * PAGE_SIZE), -1);
    assert_eq!(kernel.memory_set(0).area_count(), 4);
    assert_eq!(sys_munmap(&mut kernel, 0x10000, 3 * PAGE_SIZE), 0);
    let all = MapPermission { read: true, write: true, execute: true };
    assert_eq!(regions_of(&kernel, 0), vec![Region { start: 0x20000, len: 4096, perm: all }]);
    assert_eq!(sys_munmap(&mut kernel, 0x10000, 3 * PAGE_SIZE), -1);
    assert_eq!(sys_munmap(&mut kernel, 0x10000, PAGE_SIZE), -1);
}

#[test]
fn unmap_with_a_hole_is_refused() {
    let mut kernel = one_task();
    assert_eq!(sys_mmap(&mut kernel, 0x10000, PAGE_SIZE, 3), 0);
    assert_eq!(sys_mmap(&mut kernel, 0x12000, PAGE_SIZE, 3), 0);
    assert_eq!(sys_munmap(&mut kernel, 0x10000, 3 * PAGE_SIZE), -1);
    assert_eq!(kernel.memory_set(0).area_count(), 2);
}

#[test]
fn unmap_keeps_the_other_records_and_their_bytes() {
    let mut kernel = one_task();
    assert_eq!(sys_mmap(&mut kernel, 0x10000, PAGE_SIZE, 3), 0);
    assert_eq!(sys_mmap(&mut kernel, 0x20000, PAGE_SIZE, 3), 0);
    assert_eq!(sys_mmap(&mut kernel, 0x30000, PAGE_SIZE, 3), 0);
    assert_eq!(kernel.translated_write(0, 0x10010, &vec![1u8, 1]), Ok(()));
    assert_eq!(kernel.translated_write(0, 0x30010, &vec![3u8, 3]), Ok(()));
    assert_eq!(sys_munmap(&mut kernel, 0x20000, PAGE_SIZE), 0);
    assert_eq!(kernel.memory_set(0).read_bytes(0x10010, 2), Ok(vec![1u8, 1]));
    assert_eq!(kernel.memory_set(0).read_bytes(0x30010, 2), Ok(vec![3u8, 3]));
    assert_eq!(
        kernel.memory_set(0).read_bytes(0x20000, 1),
        Err(PageFault::Unmapped { addr: 0x20000 })
    );
    // the freed range can be mapped again, and comes back zeroed
    assert_eq!(sys_mmap(&mut kernel, 0x20000, PAGE_SIZE, 1), 0);
    assert_eq!(kernel.memory_set(0).read_bytes(0x20000, 4), Ok(vec![0u8; 4]));
}

#[test]
fn mapping_in_the_upper_half_is_accepted() {
    let mut kernel = one_task();
    let half = usize::MAX / 2 + 1;
    assert_eq!(half % PAGE_SIZE, 0);
    assert_eq!(sys_mmap(&mut kernel, half, PAGE_SIZE, 1), 0);
    assert_eq!(sys_mmap(&mut kernel, half + 0x10000, 2 * PAGE_SIZE, 3), 0);
    assert_eq!(kernel.translated_write(0, half + 0x10ffe, &vec![1u8, 2, 3, 4]), Ok(()));
    assert_eq!(kernel.memory_set(0).read_bytes(half + 0x10ffe, 4), Ok(vec![1u8, 2, 3, 4]));
    assert_eq!(kernel.memory_set(0).read_bytes(half, 2), Ok(vec![0u8, 0]));
    assert_eq!(
        kernel.translated_write(0, half, &vec![1u8]),
        Err(PageFault::Denied { addr: half })
    );
    // a range that straddles the middle of the address space
    assert_eq!(sys_mmap(&mut kernel, half - PAGE_SIZE, 2 * PAGE_SIZE, 3), -1);
    assert_eq!(sys_mmap(&mut kernel, half - 2 * PAGE_SIZE, 2 * PAGE_SIZE, 3), 0);
    assert_eq!(sys_munmap(&mut kernel, half - 2 * PAGE_SIZE, 3 * PAGE_SIZE), 0);
    assert_eq!(sys_munmap(&mut kernel, half + 0x10000, 2 * PAGE_SIZE), 0);
    assert_eq!(kernel.memory_set(0).area_count(), 0);
}

#[test]
fn highest_page_that_can_be_mapped() {
    let mut kernel = one_task();
    // the page whose end is the largest page-aligned address
    let start = usize::MAX - 2 * PAGE_SIZE + 1;
    assert_eq!(start % PAGE_SIZE, 0);
    assert_eq!(sys_mmap(&mut kernel, start, PAGE_SIZE, 3), 0);
    let last = start + PAGE_SIZE - 1;
    assert_eq!(kernel.translated_write(0, last, &vec![9u8]), Ok(()));
    assert_eq!(kernel.memory_set(0).read_bytes(last, 1), Ok(vec![9u8]));
    // a write that runs past it faults at the first address beyond, and stores nothing
    assert_eq!(
        kernel.translated_write(0, last, &vec![7u8, 7]),
        Err(PageFault::Unmapped { addr: last + 1 })
    );
    assert_eq!(kernel.memory_set(0).read_bytes(last, 1), Ok(vec![9u8]));
    assert_eq!(
        kernel.memory_set(0).read_bytes(usize::MAX - 1, 5),
        Err(PageFault::Unmapped { addr: usize::MAX - 1 })
    );
    assert_eq!(
        kernel.translated_write(0, usize::MAX, &vec![0u8; 3]),
        Err(PageFault::Unmapped { addr: usize::MAX })
    );
    assert_eq!(sys_munmap(&mut kernel, start, PAGE_SIZE), 0);
    assert_eq!(sys_munmap(&mut kernel, start, PAGE_SIZE), -1);
}

#[test]
fn range_that_the_machine_cannot_hold_is_refused() {
    let mut kernel = one_task();
    // the end of the last page is no address that a machine word holds
    let top_page = usize::MAX - PAGE_SIZE + 1;
    assert_eq!(top_page % PAGE_SIZE, 0);
    assert_eq!(sys_mmap(&mut kernel, top_page, PAGE_SIZE, 3), -1);
    assert_eq!(sys_mmap(&mut kernel, top_page, 1, 3), -1);
    assert_eq!(sys_mmap(&mut kernel, top_page - PAGE_SIZE, 2 * PAGE_SIZE, 3), -1);
    assert_eq!(sys_mmap(&mut kernel, 0x10000, usize::MAX, 3), -1);
    assert_eq!(sys_mmap(&mut kernel, 0x10000, usize::MAX - 0x10000, 3), -1);
    assert_eq!(sys_mmap(&mut kernel, PAGE_SIZE, usize::MAX - PAGE_SIZE + 1, 3), -1);
    // a length, rounded up, beyond what one mapping can have
    assert_eq!(MAX_MAP_LEN, usize::MAX / 2);
    assert_eq!(sys_mmap(&mut kernel, 0, MAX_MAP_LEN, 3), -1);
    assert_eq!(sys_mmap(&mut kernel, 0, MAX_MAP_LEN + 1, 3), -1);
    assert_eq!(sys_mmap(&mut kernel, 0, MAX_MAP_LEN - PAGE_SIZE + 2, 3), -1);
    assert_eq!(sys_mmap(&mut kernel, 0x10000, MAX_MAP_LEN + 1, 3), -1);
    // a range of no length is held anywhere
    assert_eq!(sys_mmap(&mut kernel, top_page, 0, 3), 0);
    assert_eq!(kernel.memory_set(0).area_count(), 0);
    // nothing of such ranges is mapped, so none of them can be destroyed
    assert_eq!(sys_munmap(&mut kernel, top_page, PAGE_SIZE), -1);
    assert_eq!(sys_munmap(&mut kernel, top_page, 1), -1);
    assert_eq!(sys_munmap(&mut kernel, 0x10000, usize::MAX), -1);
    assert_eq!(sys_munmap(&mut kernel, 0, MAX_MAP_LEN + 1), -1);
    assert_eq!(sys_mmap(&mut kernel, 0x10000, PAGE_SIZE, 3), 0);
    assert_eq!(sys_munmap(&mut kernel, 0x10000, usize::MAX), -1);
    assert_eq!(sys_munmap(&mut kernel, 0x10000, usize::MAX - 0x10000), -1);
    assert_eq!(kernel.memory_set(0).area_count(), 1);
}

#[test]
fn write_that_faults_stores_nothing() {
    let mut kernel = one_task();
    assert_eq!(sys_mmap(&mut kernel, 0x10000, PAGE_SIZE, 3), 0);
    assert_eq!(sys_mmap(&mut kernel, 0x11000, PAGE_SIZE, 1), 0);
    // runs from the writable page into the read-only one
    assert_eq!(
        kernel.translated_write(0, 0x10ffe, &vec![7u8; 4]),
        Err(PageFault::Denied { addr: 0x11000 })
    );
    assert_eq!(kernel.memory_set(0).read_bytes(0x10ffe, 4), Ok(vec![0u8; 4]));
    // runs off the end of what is mapped
    assert_eq!(
        kernel.translated_write(0, 0x11ffe, &vec![7u8; 4]),
        Err(PageFault::Denied { addr: 0x11ffe })
    );
    assert_eq!(
        kernel.memory_set(0).read_bytes(0x11ffe, 4),
        Err(PageFault::Unmapped { addr: 0x12000 })
    );
    // starts before anything is mapped
    assert_eq!(
        kernel.translated_write(0, 0xfffe, &vec![7u8; 4]),
        Err(PageFault::Unmapped { addr: 0xfffe })
    );
    assert_eq!(kernel.memory_set(0).read_bytes(0x10000, 2), Ok(vec![0u8; 2]));
    // an empty write touches nothing and cannot fault
    assert_eq!(kernel.translated_write(0, 0x50000, &Vec::new()), Ok(()));
}

#[test]
fn write_runs_across_adjacent_records() {
    let mut kernel = one_task();
    assert_eq!(sys_mmap(&mut kernel, 0x11000, PAGE_SIZE, 3), 0);
    assert_eq!(sys_mmap(&mut kernel, 0x10000, PAGE_SIZE, 2), 0);
    let bytes: Vec<u8> = (1u8..=8).collect();
    assert_eq!(kernel.translated_write(0, 0x10ffc, &bytes), Ok(()));
    assert_eq!(kernel.memory_set(0).read_bytes(0x11000, 4), Ok(vec![5u8, 6, 7, 8]));
    assert_eq!(
        kernel.memory_set(0).read_bytes(0x10ffc, 8),
        Err(PageFault::Denied { addr: 0x10ffc })
    );
    let space = kernel.memory_set(0);
    let loc = space.translate(0x10fff, Access::Write).unwrap();
    assert_eq!(loc, Location { area: 1, offset: 0xfff });
    assert_eq!(space.load(loc), 4);
}

#[test]
fn load_and_store_at_a_location() {
    let mut space = MemorySet::new();
    assert_eq!(space.area_count(), 0);
    assert_eq!(space.map(0x3000, 10, 3), 0);
    let loc = space.translate(0x3005, Access::Write).unwrap();
    assert_eq!(space.load(loc), 0);
    space.store(loc, 0x77);
    assert_eq!(space.load(loc), 0x77);
    assert_eq!(space.read_bytes(0x3004, 3), Ok(vec![0u8, 0x77, 0]));
    assert_eq!(space.write_bytes(0x3004, &vec![1u8, 2, 3]), Ok(()));
    assert_eq!(space.read_bytes(0x3004, 3), Ok(vec![1u8, 2, 3]));
    assert_eq!(space.unmap(0x3000, 10), 0);
    assert_eq!(space.unmap(0x3000, 10), -1);
}

#[test]
fn mappings_belong_to_one_task() {
    let mut kernel = Kernel::new();
    assert_eq!(kernel.spawn(), 0);
    assert_eq!(kernel.spawn(), 1);
    kernel.run_first_task();
    assert_eq!(sys_mmap(&mut kernel, 0x10000, PAGE_SIZE, 3), 0);
    assert_eq!(kernel.translated_write(0, 0x10000, &vec![0x11u8]), Ok(()));
    kernel.suspend_current_and_run_next();
    assert_eq!(kernel.current(), Some(1));
    // the second task sees nothing of the first one's mapping
    assert_eq!(
        kernel.translate(1, 0x10000, Access::Read),
        Err(PageFault::Unmapped { addr: 0x10000 })
    );
    assert_eq!(sys_munmap(&mut kernel, 0x10000, PAGE_SIZE), -1);
    // and may map the same range for itself
    assert_eq!(sys_mmap(&mut kernel, 0x10000, PAGE_SIZE, 1), 0);
    assert_eq!(kernel.memory_set(1).read_bytes(0x10000, 1), Ok(vec![0u8]));
    assert_eq!(kernel.memory_set(0).read_bytes(0x10000, 1), Ok(vec![0x11u8]));
    assert_eq!(sys_munmap(&mut kernel, 0x10000, PAGE_SIZE), 0);
    assert_eq!(kernel.memory_set(0).area_count(), 1);
    assert_eq!(kernel.memory_set(1).area_count(), 0);
}

#[test]
fn page_rounding() {
    assert_eq!(page_round_up(0), Some(0));
    assert_eq!(page_round_up(1), Some(4096));
    assert_eq!(page_round_up(4095), Some(4096));
    assert_eq!(page_round_up(4096), Some(4096));
    assert_eq!(page_round_up(4097), Some(8192));
    assert_eq!(page_round_up(MAX_MAP_LEN), Some(MAX_MAP_LEN + 1));
    assert_eq!(page_round_up(usize::MAX - 4095), Some(usize::MAX - 4095));
    assert_eq!(page_round_up(usize::MAX - 4096), Some(usize::MAX - 4095));
    assert_eq!(page_round_up(usize::MAX - 4094), None);
    assert_eq!(page_round_up(usize::MAX), None);
}
