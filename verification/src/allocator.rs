//! The kernel heap: how large it is made and which pages it spans, the
//! pages that a range of virtual memory spans, and what the heap allocator
//! reports of its size and use.
use vstd::prelude::*;
use linked_list_allocator::Heap;
use crate::memory::{virt_addr, page_containing, virt_addr_valid, virt_canonical, align_down_4k};

verus! {

/// The virtual address at which the kernel heap starts.
pub const HEAP_START: u64 = 0x4444_4444_0000;

/// The heap allocator of the `linked_list_allocator` crate, whose fields
/// Verus does not see.
#[verifier::external_type_specification]
#[verifier::external_body]
pub struct ExHeap(Heap);

/// The number of bytes a heap was given to manage.
pub uninterp spec fn heap_size(heap: Heap) -> nat;

/// The number of bytes of a heap that are handed out.
pub uninterp spec fn heap_used(heap: Heap) -> nat;

/// `Heap::size` of `linked_list_allocator`: the size of the heap.
#[verifier::external_body]
fn heap_size_of(heap: &Heap) -> (r: usize)
    ensures
        r == heap_size(*heap),
{
    heap.size()
}

/// `Heap::used` of `linked_list_allocator`: the bytes handed out, which
/// never exceed the size, as the heap only hands out bytes of its holes and
/// `Heap::free` subtracts them from the size.
#[verifier::external_body]
fn heap_used_of(heap: &Heap) -> (r: usize)
    ensures
        r == heap_used(*heap),
        r <= heap_size(*heap),
{
    heap.used()
}

/// `Heap::free` of `linked_list_allocator`, which its source computes as
/// the size less the bytes handed out.
#[verifier::external_body]
fn heap_free_of(heap: &Heap) -> (r: usize)
    ensures
        r + heap_used(*heap) == heap_size(*heap),
{
    heap.free()
}

/// The number of bytes the heap manages.
pub fn memory_size(heap: &Heap) -> (r: usize)
    ensures
        r == heap_size(*heap),
{
    heap_size_of(heap)
}

/// The number of bytes of the heap in use.
pub fn memory_used(heap: &Heap) -> (r: usize)
    ensures
        r == heap_used(*heap),
        r <= heap_size(*heap),
{
    heap_used_of(heap)
}

/// The number of bytes of the heap not in use: what is used and what is
/// free make up the whole heap.
pub fn memory_free(heap: &Heap) -> (r: usize)
    ensures
        r + heap_used(*heap) == heap_size(*heap),
{
    heap_free_of(heap)
}

/// The value of a run of decimal digits.
pub open spec fn digits_value(digits: Seq<char>) -> nat
    decreases digits.len(),
{
    if digits.len() == 0 {
        0
    } else {
        digits_value(digits.drop_last()) * 10 + ((digits.last() as u32) - 48) as nat
    }
}

/// Whether `c` is a decimal digit.
pub open spec fn is_decimal_digit(c: char) -> bool {
    '0' <= c <= '9'
}

/// The digits of a number as written: a leading `+` is dropped.
pub open spec fn unsigned_digits(s: Seq<char>) -> Seq<char> {
    if s.len() > 0 && s[0] == '+' {
        s.drop_first()
    } else {
        s
    }
}

/// The `u64` that `s` writes in decimal, with an optional leading `+`, if
/// it writes one.
pub open spec fn parsed_u64(s: Seq<char>) -> Option<u64> {
    let digits = unsigned_digits(s);
    if digits.len() > 0 && (forall|i: int| 0 <= i < digits.len() ==> is_decimal_digit(#[trigger] digits[i]))
        && digits_value(digits) <= u64::MAX {
        Some(digits_value(digits) as u64)
    } else {
        None
    }
}

/// `str::parse::<u64>` of std, `Ok` turned to `Some`: the number that `s`
/// writes as an optional `+` and decimal digits, if it fits in a `u64`.
#[verifier::external_body]
fn parse_u64(s: &str) -> (r: Option<u64>)
    ensures
        r == parsed_u64(s@),
{
    s.parse::<u64>().ok()
}

/// The number of mebibytes the heap may take at most: the setting, or one
/// where there is none.
pub open spec fn max_memory_mib(setting: Option<Seq<char>>) -> u64 {
    match setting {
        Some(s) => parsed_u64(s).unwrap(),
        None => 1,
    }
}

/// Whether the setting of the largest heap is a number, where there is one.
pub open spec fn max_memory_setting_valid(setting: Option<Seq<char>>) -> bool {
    match setting {
        Some(s) => parsed_u64(s) is Some,
        None => true,
    }
}

/// The largest heap, in bytes, for a setting given in mebibytes: the
/// setting shifted left by 20 bits, the bits beyond 64 dropped.
pub fn max_memory(setting: Option<&str>) -> (r: u64)
    requires
        max_memory_setting_valid(match setting {
            Some(s) => Some(s@),
            None => None,
        }),
    ensures
        r as int == (max_memory_mib(match setting {
            Some(s) => Some(s@),
            None => None,
        }) as int * 0x10_0000) % 0x1_0000_0000_0000_0000,
{
    proof {
        reveal_strlit("1");
        assert(unsigned_digits("1"@) =~= seq!['1']);
        assert(seq!['1'].drop_last() =~= Seq::<char>::empty());
        assert(seq!['1'].last() == '1');
        assert(('1' as u32) == 49);
        assert(digits_value(Seq::<char>::empty()) == 0);
        assert(digits_value(seq!['1']) == 1);
        assert(parsed_u64("1"@) == Some(1u64));
    }
    let text = match setting {
        Some(s) => s,
        None => "1",
    };
    let mib = match parse_u64(text) {
        Some(v) => v,
        None => 0,
    };
    let r = mib << 20u64;
    proof {
        assert(mib == max_memory_mib(match setting {
            Some(s) => Some(s@),
            None => None,
        }));
        assert(r == (mib % 0x1000_0000_0000u64) * 0x10_0000u64) by (bit_vector)
            requires r == mib << 20u64;
        assert((mib % 0x1000_0000_0000u64) * 0x10_0000u64 == (mib as int * 0x10_0000) % 0x1_0000_0000_0000_0000) by (nonlinear_arith)
            requires mib >= 0;
    }
    r
}

/// The size, first page and last page of the kernel heap.
pub struct HeapLayout {
    pub size: u64,
    pub first_page: u64,
    pub last_page: u64,
}

/// The heap size for the given memory size and largest heap: the smaller.
pub open spec fn heap_size_for(memory_size: u64, max_memory: u64) -> u64 {
    if memory_size <= max_memory {
        memory_size
    } else {
        max_memory
    }
}

/// The virtual address of the heap's last byte, as the page table code
/// computes it: the heap's start plus its size, less one.
pub open spec fn heap_end(size: u64) -> u64 {
    virt_canonical((virt_canonical((HEAP_START + size) as u64) - 1) as u64)
}

/// Whether a heap of `size` bytes from `HEAP_START` has valid virtual
/// addresses at its end.
pub open spec fn heap_fits(size: u64) -> bool {
    &&& HEAP_START + size <= u64::MAX
    &&& virt_addr_valid((HEAP_START + size) as u64)
    &&& virt_canonical((HEAP_START + size) as u64) >= 1
    &&& virt_addr_valid((virt_canonical((HEAP_START + size) as u64) - 1) as u64)
}

/// The layout of the kernel heap: as large as memory or the largest heap,
/// whichever is smaller, from `HEAP_START`, and the pages from the one
/// holding its first byte to the one holding its last byte.  A heap of no
/// bytes has its last page before its first.
pub fn heap_layout(memory_size: u64, max_memory: u64) -> (r: HeapLayout)
    requires
        heap_fits(heap_size_for(memory_size, max_memory)),
    ensures
        r.size == heap_size_for(memory_size, max_memory),
        r.first_page == align_down_4k(HEAP_START),
        r.last_page == align_down_4k(heap_end(r.size)),
{
    let heap_start = virt_addr(HEAP_START);
    let heap_size = if memory_size <= max_memory { memory_size } else { max_memory };
    let past_end = virt_addr(heap_start + heap_size);
    let heap_end = virt_addr(past_end - 1);
    proof {
        assert(virt_canonical(heap_end) == heap_end);
        assert(virt_canonical(heap_start) == heap_start);
    }
    let first_page = page_containing(heap_start);
    let last_page = page_containing(heap_end);
    HeapLayout { size: heap_size, first_page, last_page }
}

/// The pages from a fitting heap's first to its last cover it exactly: none
/// for a heap of no bytes, else from the page of its first byte to the page
/// of its last.  This holds wherever the end of the heap needs no sign
/// extension, that is, unless the heap ends just above the lower half of the
/// address space, where its end is moved to the upper half.
pub proof fn lemma_heap_pages_cover_heap(size: u64)
    requires
        heap_fits(size),
        (HEAP_START + size) as u64 / 0x8000_0000_0000 != 1,
    ensures
        heap_end(size) == HEAP_START + size - 1,
        size == 0 ==> align_down_4k(heap_end(size)) < align_down_4k(HEAP_START),
        size > 0 ==> {
            &&& align_down_4k(HEAP_START) == HEAP_START
            &&& align_down_4k(HEAP_START) <= align_down_4k(heap_end(size))
            &&& align_down_4k(heap_end(size)) <= HEAP_START + size - 1 < align_down_4k(heap_end(size)) + 4096
        },
{
    let past = (HEAP_START + size) as u64;
    assert(virt_canonical(past) == past);
    assert(HEAP_START % 4096 == 0);
    let e = (past - 1) as u64;
    assert(e / 0x8000_0000_0000 != 1);
    assert(virt_canonical(e) == e);
    if size == 0 {
        assert(e == HEAP_START - 1);
        assert(e % 4096 == 4095);
    } else {
        assert(e >= HEAP_START);
        assert(e - e % 4096 >= HEAP_START) by {
            assert((e - HEAP_START) % 4096 == e % 4096 - 0) by (nonlinear_arith)
                requires e >= HEAP_START, HEAP_START % 4096 == 0, HEAP_START == 0x4444_4444_0000u64;
        }
    }
}

/// Whether `size` bytes from the virtual address `addr` have valid
/// addresses at both ends.
pub open spec fn span_fits(addr: u64, size: usize) -> bool {
    &&& virt_addr_valid(addr)
    &&& 1 <= addr + size <= u64::MAX
    &&& virt_addr_valid((addr + size - 1) as u64)
}

/// The start addresses of the first and the last page of `size` bytes from
/// the virtual address `addr`.
pub fn page_span(addr: u64, size: usize) -> (r: (u64, u64))
    requires
        span_fits(addr, size),
    ensures
        r.0 == align_down_4k(virt_canonical(addr)),
        r.1 == align_down_4k(virt_canonical((addr + size - 1) as u64)),
{
    let start = virt_addr(addr);
    let end = virt_addr(addr + (size as u64) - 1);
    proof {
        assert(virt_canonical(start) == start);
        assert(virt_canonical(end) == end);
    }
    (page_containing(start), page_containing(end))
}

/// Whether a buffer of `len` bytes whose first byte is at the physical
/// address `first_phys` and last byte at `last_phys` lies in one piece of
/// physical memory.
pub fn is_physically_contiguous(len: usize, first_phys: u64, last_phys: u64) -> (r: bool)
    requires
        len >= 1,
        first_phys <= last_phys,
    ensures
        r == (len - 1 == (last_phys - first_phys) as usize),
{
    let buffer_len = len - 1;
    let memory_len = last_phys - first_phys;
    buffer_len == memory_len as usize
}

} // verus!
