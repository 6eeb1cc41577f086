use linked_list_allocator::Heap;
use std::alloc::Layout;
use std::mem::MaybeUninit;
use swan_kernel::allocator::{
    heap_layout, is_physically_contiguous, max_memory, memory_free, memory_size, memory_used, page_span, HEAP_START,
};

#[test]
fn empty_heap_has_nothing() {
    let heap = Heap::empty();
    assert_eq!(memory_size(&heap), 0);
    assert_eq!(memory_used(&heap), 0);
    assert_eq!(memory_free(&heap), 0);
}

#[test]
fn used_and_free_make_up_the_heap() {
    let memory: &'static mut [MaybeUninit<u8>] = Box::leak(vec![MaybeUninit::new(0u8); 4096].into_boxed_slice());
    let mut heap = Heap::from_slice(memory);
    let size = memory_size(&heap);
    assert!(size > 0 && size <= 4096);
    assert_eq!(memory_used(&heap), 0);
    assert_eq!(memory_free(&heap), size);
    heap.allocate_first_fit(Layout::from_size_align(64, 8).unwrap()).unwrap();
    let used = memory_used(&heap);
    assert!(used >= 64);
    assert_eq!(memory_free(&heap), size - used);
    assert_eq!(memory_used(&heap) + memory_free(&heap), memory_size(&heap));
}

#[test]
fn max_memory_defaults_to_one_mebibyte() {
    assert_eq!(max_memory(None), 1 << 20);
}

#[test]
fn max_memory_reads_mebibytes() {
    assert_eq!(max_memory(Some("16")), 16 << 20);
    assert_eq!(max_memory(Some("+2")), 2 << 20);
    assert_eq!(max_memory(Some("0")), 0);
    assert_eq!(max_memory(Some("0007")), 7 << 20);
}

#[test]
fn max_memory_drops_bits_beyond_64() {
    assert_eq!(max_memory(Some("18446744073709551615")), u64::MAX << 20);
    assert_eq!(max_memory(Some("17592186044416")), 0);
}

#[test]
fn heap_takes_the_smaller_size() {
    let l = heap_layout(1 << 20, 4 << 20);
    assert_eq!(l.size, 1 << 20);
    assert_eq!(l.first_page, HEAP_START);
    assert_eq!(l.last_page, HEAP_START + (1 << 20) - 4096);
    let l = heap_layout(8 << 20, 1 << 20);
    assert_eq!(l.size, 1 << 20);
    assert_eq!(l.last_page, HEAP_START + (1 << 20) - 4096);
}

#[test]
fn heap_of_partial_page() {
    let l = heap_layout(5000, 1 << 20);
    assert_eq!(l.size, 5000);
    assert_eq!(l.first_page, HEAP_START);
    assert_eq!(l.last_page, HEAP_START + 4096);
}

#[test]
fn heap_of_no_bytes_has_no_pages() {
    let l = heap_layout(0, 1 << 20);
    assert_eq!(l.size, 0);
    assert_eq!(l.first_page, HEAP_START);
    assert_eq!(l.last_page, HEAP_START - 4096);
    assert!(l.last_page < l.first_page);
}

#[test]
fn page_span_of_ranges() {
    assert_eq!(page_span(0x1000, 0x2000), (0x1000, 0x2000));
    assert_eq!(page_span(0x1fff, 2), (0x1000, 0x2000));
    assert_eq!(page_span(0x1234, 1), (0x1000, 0x1000));
}

#[test]
fn page_span_sign_extends() {
    assert_eq!(page_span(0x8000_0000_0123, 1), (0xffff_8000_0000_0000, 0xffff_8000_0000_0000));
}

#[test]
fn contiguous_buffers() {
    assert!(is_physically_contiguous(4, 100, 103));
    assert!(is_physically_contiguous(1, 7, 7));
    assert!(!is_physically_contiguous(4, 100, 200));
}
