use std::collections::HashMap;
use swan_kernel::memory::{
    init, memory_size, phys_to_virt, table_index, total_memory, translate_addr, BootInfoFrameAllocator,
    MemoryRegion, TableEntry, Translation,
};

fn region(start: u64, end: u64, usable: bool) -> MemoryRegion {
    MemoryRegion { start_frame_number: start, end_frame_number: end, usable }
}

#[test]
fn region_addresses() {
    let r = region(1, 3, true);
    assert_eq!(r.start_addr(), 4096);
    assert_eq!(r.end_addr(), 12288);
}

#[test]
fn total_memory_adds_all_regions() {
    let map = vec![region(0, 2, true), region(2, 4, false), region(10, 12, true)];
    assert_eq!(total_memory(&map), 6 * 4096);
    assert_eq!(total_memory(&Vec::new()), 0);
}

#[test]
fn init_records_size_and_offset() {
    let map = vec![region(0, 16, true), region(16, 32, false)];
    let state = init(&map, 0x1000_0000_0000);
    assert_eq!(memory_size(&state), 32 * 4096);
    assert_eq!(phys_to_virt(&state, 0x5000), 0x1000_0000_5000);
}

#[test]
fn phys_to_virt_sign_extends() {
    let state = init(&Vec::new(), 0x7fff_ffff_f000);
    assert_eq!(phys_to_virt(&state, 0x1000), 0xffff_8000_0000_0000);
}

#[test]
fn frames_are_handed_out_in_order_then_none() {
    let map = vec![region(0, 2, true), region(2, 4, false), region(10, 12, true)];
    let mut a = BootInfoFrameAllocator::init(map);
    assert_eq!(a.allocate_frame(), Some(0));
    assert_eq!(a.allocate_frame(), Some(4096));
    assert_eq!(a.allocate_frame(), Some(40960));
    assert_eq!(a.allocate_frame(), Some(45056));
    assert_eq!(a.allocate_frame(), None);
    assert_eq!(a.allocate_frame(), None);
}

#[test]
fn nth_usable_frame_counts_usable_frames_only() {
    let map = vec![region(5, 6, false), region(7, 9, true), region(20, 21, true)];
    let a = BootInfoFrameAllocator::init(map);
    assert_eq!(a.nth_usable_frame(0), Some(7 * 4096));
    assert_eq!(a.nth_usable_frame(1), Some(8 * 4096));
    assert_eq!(a.nth_usable_frame(2), Some(20 * 4096));
    assert_eq!(a.nth_usable_frame(3), None);
}

#[test]
fn empty_map_has_no_frames() {
    let mut a = BootInfoFrameAllocator::init(Vec::new());
    assert_eq!(a.allocate_frame(), None);
}

fn sample_addr() -> u64 {
    (3u64 << 39) | (5u64 << 30) | (7u64 << 21) | (9u64 << 12) | 0x123
}

#[test]
fn table_indexes_of_an_address() {
    let a = sample_addr();
    assert_eq!(table_index(a, 4), 3);
    assert_eq!(table_index(a, 3), 5);
    assert_eq!(table_index(a, 2), 7);
    assert_eq!(table_index(a, 1), 9);
    assert_eq!(table_index(0xffff_ffff_ffff_ffff, 4), 511);
}

fn tables() -> HashMap<(u64, u16), TableEntry> {
    let mut t = HashMap::new();
    t.insert((0x1000, 3), TableEntry::Frame(0x2000));
    t.insert((0x2000, 5), TableEntry::Frame(0x3000));
    t.insert((0x3000, 7), TableEntry::Frame(0x4000));
    t.insert((0x4000, 9), TableEntry::Frame(0x9_9000));
    t
}

#[test]
fn translate_mapped_address() {
    let t = tables();
    let r = translate_addr(sample_addr(), 0x1000, |f, i| *t.get(&(f, i)).unwrap_or(&TableEntry::NotPresent));
    assert_eq!(r, Translation::Mapped(0x9_9123));
}

#[test]
fn translate_unmapped_address() {
    let mut t = tables();
    t.insert((0x3000, 7), TableEntry::NotPresent);
    let r = translate_addr(sample_addr(), 0x1000, |f, i| *t.get(&(f, i)).unwrap_or(&TableEntry::NotPresent));
    assert_eq!(r, Translation::NotMapped);
    let r = translate_addr(0, 0x1000, |f, i| *t.get(&(f, i)).unwrap_or(&TableEntry::NotPresent));
    assert_eq!(r, Translation::NotMapped);
}

#[test]
fn translate_huge_page() {
    let mut t = tables();
    t.insert((0x2000, 5), TableEntry::HugeFrame);
    let r = translate_addr(sample_addr(), 0x1000, |f, i| *t.get(&(f, i)).unwrap_or(&TableEntry::NotPresent));
    assert_eq!(r, Translation::HugePage);
}

#[test]
fn unordered_disjoint_regions_give_distinct_frames() {
    let map = vec![region(10, 12, true), region(0, 1, true), region(0, 20, false)];
    let mut a = BootInfoFrameAllocator::init(map);
    let mut seen = Vec::new();
    while let Some(f) = a.allocate_frame() {
        assert!(!seen.contains(&f));
        seen.push(f);
    }
    assert_eq!(seen, vec![40960, 45056, 0]);
}
