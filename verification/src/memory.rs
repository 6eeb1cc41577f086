//! Physical memory: the boot memory map, the total memory it describes,
//! the translation of physical to virtual addresses through the offset at
//! which all physical memory is mapped, and the frame allocator that hands
//! out the usable 4 KiB frames of the map one after the other.
use vstd::prelude::*;
use x86_64::structures::paging::{Page, PhysFrame, Size4KiB};
use x86_64::{PhysAddr, VirtAddr};

verus! {

/// The size of a page and of a frame.
pub const PAGE_SIZE: u64 = 4096;

/// One past the highest physical address: 2^52.
pub const PHYS_ADDR_LIMIT: u64 = 0x10_0000_0000_0000;

/// One past the highest frame number of a physical address: 2^40.
pub const FRAME_NUMBER_LIMIT: u64 = 0x100_0000_0000;

/// Whether `VirtAddr::new` of `x86_64` accepts `addr`: bits 47 to 63 are
/// all clear, all set, or only bit 47 is set.
pub open spec fn virt_addr_valid(addr: u64) -> bool {
    let high = addr / 0x8000_0000_0000;
    high == 0 || high == 1 || high == 0x1ffff
}

/// The address `VirtAddr::new` of `x86_64` makes of a valid `addr`: bit 47
/// copied into bits 48 to 63.
pub open spec fn virt_canonical(addr: u64) -> u64 {
    if addr / 0x8000_0000_0000 == 1 {
        (addr + 0xffff_0000_0000_0000u64) as u64
    } else {
        addr
    }
}

/// Whether `PhysAddr::new` of `x86_64` accepts `addr`: bits 52 to 63 are
/// clear.
pub open spec fn phys_addr_valid(addr: u64) -> bool {
    addr < PHYS_ADDR_LIMIT
}

/// `addr` rounded down to a multiple of 4096.
pub open spec fn align_down_4k(addr: u64) -> u64 {
    (addr - addr % 4096) as u64
}

/// `VirtAddr::new` of `x86_64`, taken back to a `u64` with `as_u64`: the
/// canonical form of a valid address.
#[verifier::external_body]
pub(crate) fn virt_addr(addr: u64) -> (r: u64)
    requires
        virt_addr_valid(addr),
    ensures
        r == virt_canonical(addr),
{
    VirtAddr::new(addr).as_u64()
}

/// `Page::<Size4KiB>::containing_address` of `x86_64`, on the virtual
/// address `addr` and taken back to the `u64` of the page's start address:
/// `addr` rounded down to a multiple of 4096.
#[verifier::external_body]
pub(crate) fn page_containing(addr: u64) -> (r: u64)
    requires
        virt_addr_valid(addr),
        virt_canonical(addr) == addr,
    ensures
        r == align_down_4k(addr),
{
    Page::<Size4KiB>::containing_address(VirtAddr::new(addr)).start_address().as_u64()
}

/// `PhysFrame::<Size4KiB>::containing_address` of `x86_64`, on the physical
/// address `addr` and taken back to the `u64` of the frame's start address:
/// `addr` rounded down to a multiple of 4096.
#[verifier::external_body]
pub(crate) fn frame_containing(addr: u64) -> (r: u64)
    requires
        phys_addr_valid(addr),
    ensures
        r == align_down_4k(addr),
{
    PhysFrame::<Size4KiB>::containing_address(PhysAddr::new(addr)).start_address().as_u64()
}

/// A region of the boot memory map: the frames numbered from
/// `start_frame_number` up to, and not including, `end_frame_number`, and
/// whether the kernel may use them.
#[derive(Clone, Copy, Debug, PartialEq, Eq, Structural)]
pub struct MemoryRegion {
    pub start_frame_number: u64,
    pub end_frame_number: u64,
    pub usable: bool,
}

/// A region whose frames lie in order below the physical address limit.
pub open spec fn region_valid(r: MemoryRegion) -> bool {
    r.start_frame_number <= r.end_frame_number <= FRAME_NUMBER_LIMIT
}

/// A memory map whose usable regions are valid.
pub open spec fn usable_regions_valid(regions: Seq<MemoryRegion>) -> bool {
    forall|i: int| 0 <= i < regions.len() && (#[trigger] regions[i]).usable ==> region_valid(regions[i])
}

/// A region whose frames lie in order and whose end address fits in 64 bits.
pub open spec fn region_sized(r: MemoryRegion) -> bool {
    r.start_frame_number <= r.end_frame_number && r.end_frame_number * PAGE_SIZE <= u64::MAX
}

/// A memory map of regions whose addresses fit in 64 bits.
pub open spec fn memory_map_sized(regions: Seq<MemoryRegion>) -> bool {
    forall|i: int| 0 <= i < regions.len() ==> region_sized(#[trigger] regions[i])
}

/// A memory map whose usable regions do not overlap.
pub open spec fn usable_regions_disjoint(regions: Seq<MemoryRegion>) -> bool {
    forall|i: int, j: int| 0 <= i < j < regions.len() && (#[trigger] regions[i]).usable && (#[trigger] regions[j]).usable
        ==> regions[i].end_frame_number <= regions[j].start_frame_number || regions[j].end_frame_number <= regions[i].start_frame_number
}

impl MemoryRegion {
    /// The physical address at which the region starts.
    pub fn start_addr(&self) -> (r: u64)
        requires
            self.start_frame_number * PAGE_SIZE <= u64::MAX,
        ensures
            r == self.start_frame_number * PAGE_SIZE,
    {
        self.start_frame_number * PAGE_SIZE
    }

    /// The physical address at which the region ends.
    pub fn end_addr(&self) -> (r: u64)
        requires
            self.end_frame_number * PAGE_SIZE <= u64::MAX,
        ensures
            r == self.end_frame_number * PAGE_SIZE,
    {
        self.end_frame_number * PAGE_SIZE
    }
}

/// The number of bytes the regions of `regions` cover, counted region by
/// region.
pub open spec fn total_size(regions: Seq<MemoryRegion>) -> int
    decreases regions.len(),
{
    if regions.len() == 0 {
        0
    } else {
        total_size(regions.drop_last()) + (regions.last().end_frame_number - regions.last().start_frame_number) * PAGE_SIZE
    }
}

/// The start addresses of the frames of `r`, in order.
pub open spec fn region_frames(r: MemoryRegion) -> Seq<u64> {
    Seq::new((r.end_frame_number - r.start_frame_number) as nat, |k: int| ((r.start_frame_number + k) * PAGE_SIZE) as u64)
}

/// The start addresses of the usable frames of the memory map, region after
/// region.
pub open spec fn usable_frames(regions: Seq<MemoryRegion>) -> Seq<u64>
    decreases regions.len(),
{
    if regions.len() == 0 {
        Seq::empty()
    } else {
        let earlier = usable_frames(regions.drop_last());
        if regions.last().usable {
            earlier + region_frames(regions.last())
        } else {
            earlier
        }
    }
}

/// What the kernel knows of physical memory once it has started: the
/// virtual address at which all physical memory is mapped, and the size of
/// the memory the boot memory map describes.
pub struct MemoryState {
    phys_mem_offset: u64,
    memory_size: u64,
}

impl MemoryState {
    /// The virtual address at which physical memory is mapped.
    pub closed spec fn offset(&self) -> u64 {
        self.phys_mem_offset
    }

    /// The number of bytes of memory.
    pub closed spec fn size(&self) -> u64 {
        self.memory_size
    }
}

/// The number of bytes all regions of the memory map cover.
pub fn total_memory(memory_map: &Vec<MemoryRegion>) -> (r: u64)
    requires
        memory_map_sized(memory_map@),
        total_size(memory_map@) <= u64::MAX,
    ensures
        r == total_size(memory_map@),
{
    let mut memory_size: u64 = 0;
    let mut i: usize = 0;
    while i < memory_map.len()
        invariant
            i <= memory_map@.len(),
            memory_map_sized(memory_map@),
            total_size(memory_map@) <= u64::MAX,
            memory_size == total_size(memory_map@.take(i as int)),
        decreases memory_map@.len() - i,
    {
        proof {
            assert(memory_map@.take(i + 1).drop_last() =~= memory_map@.take(i as int));
            assert(region_sized(memory_map@[i as int]));
            lemma_total_size_prefix(memory_map@, i + 1);
        }
        let region = &memory_map[i];
        let start_addr = region.start_addr();
        let end_addr = region.end_addr();
        memory_size = memory_size + (end_addr - start_addr);
        i = i + 1;
    }
    proof {
        assert(memory_map@.take(i as int) =~= memory_map@);
    }
    memory_size
}

/// The sizes of the regions are not negative, so a prefix of the map covers
/// no more than the whole map.
proof fn lemma_total_size_prefix(regions: Seq<MemoryRegion>, j: int)
    requires
        memory_map_sized(regions),
        0 <= j <= regions.len(),
    ensures
        0 <= total_size(regions.take(j)) <= total_size(regions),
    decreases regions.len(),
{
    if regions.len() > 0 {
        let prev = regions.drop_last();
        assert(region_sized(regions.last()));
        assert(memory_map_sized(prev)) by {
            assert forall|i: int| 0 <= i < prev.len() implies region_sized(#[trigger] prev[i]) by {
                assert(prev[i] == regions[i]);
            }
        }
        if j == regions.len() {
            assert(regions.take(j) =~= regions);
            lemma_total_size_prefix(prev, prev.len() as int);
            assert(prev.take(prev.len() as int) =~= prev);
        } else {
            lemma_total_size_prefix(prev, j);
            assert(prev.take(j) =~= regions.take(j));
        }
    }
}

/// Every region counts toward the total: the size of two maps one after the
/// other is the sum of their sizes, and adding a region adds its size.
pub proof fn lemma_total_size_adds(a: Seq<MemoryRegion>, b: Seq<MemoryRegion>)
    ensures
        total_size(a + b) == total_size(a) + total_size(b),
        b.len() == 1 ==> total_size(a + b) == total_size(a) + (b[0].end_frame_number - b[0].start_frame_number) * PAGE_SIZE,
    decreases b.len(),
{
    if b.len() == 0 {
        assert(a + b =~= a);
    } else {
        lemma_total_size_adds(a, b.drop_last());
        assert((a + b).drop_last() =~= a + b.drop_last());
        assert((a + b).last() == b.last());
        if b.len() == 1 {
            assert(b.drop_last() =~= Seq::<MemoryRegion>::empty());
        }
    }
}

/// The memory state the kernel starts with: physical memory mapped at
/// `physical_memory_offset`, and the size of all regions of the memory map.
pub fn init(memory_map: &Vec<MemoryRegion>, physical_memory_offset: u64) -> (r: MemoryState)
    requires
        memory_map_sized(memory_map@),
        total_size(memory_map@) <= u64::MAX,
    ensures
        r.offset() == physical_memory_offset,
        r.size() == total_size(memory_map@),
{
    let memory_size = total_memory(memory_map);
    MemoryState { phys_mem_offset: physical_memory_offset, memory_size }
}

/// The number of bytes of memory.
pub fn memory_size(state: &MemoryState) -> (r: u64)
    ensures
        r == state.size(),
{
    state.memory_size
}

/// The virtual address at which physical memory is mapped.
pub fn offset(state: &MemoryState) -> (r: u64)
    ensures
        r == state.offset(),
{
    state.phys_mem_offset
}

/// The virtual address at which the physical address `addr` is mapped.
pub fn phys_to_virt(state: &MemoryState, addr: u64) -> (r: u64)
    requires
        phys_addr_valid(addr),
        addr + state.offset() <= u64::MAX,
        virt_addr_valid((addr + state.offset()) as u64),
    ensures
        r == virt_canonical((addr + state.offset()) as u64),
{
    virt_addr(addr + state.phys_mem_offset)
}

/// What a page table entry holds: the frame of the next table or of the
/// page, nothing, or a huge page.
#[derive(Clone, Copy, Debug, PartialEq, Eq, Structural)]
pub enum TableEntry {
    Frame(u64),
    NotPresent,
    HugeFrame,
}

/// Where a virtual address leads in the page tables: to a physical address,
/// nowhere, or into a huge page, which the walk does not follow.
#[derive(Clone, Copy, Debug, PartialEq, Eq, Structural)]
pub enum Translation {
    Mapped(u64),
    NotMapped,
    HugePage,
}

/// The index of `addr` in the page table of `level`, from 4 for the top
/// table down to 1: nine bits of the address above the page offset.
pub open spec fn page_table_index(addr: u64, level: int) -> u16 {
    ((addr as int / pow2_12_9(level)) % 512) as u16
}

/// 2 to the power of 12 + 9 * (level - 1), for levels 1 to 4.
pub open spec fn pow2_12_9(level: int) -> int {
    if level == 1 {
        0x1000
    } else if level == 2 {
        0x20_0000
    } else if level == 3 {
        0x4000_0000
    } else {
        0x80_0000_0000
    }
}

/// An entry that points at a frame points at a frame-aligned physical
/// address.
pub open spec fn entry_valid(entry: TableEntry) -> bool {
    entry matches TableEntry::Frame(f) ==> phys_addr_valid(f) && f % 4096 == 0
}

/// The frame of the table read at step `k` of a walk that started at the
/// top table `top` and read `entries` before.
pub open spec fn walk_frame(top: u64, entries: Seq<TableEntry>, k: int) -> u64 {
    if k == 0 {
        top
    } else {
        match entries[k - 1] {
            TableEntry::Frame(f) => f,
            _ => 0,
        }
    }
}

/// Whether `entries` are what `read_entry` gave, in order, for the tables
/// of a walk of `addr` from the top table `top`: each is read from the
/// frame the one before pointed at, at the index of its level, and only the
/// last may be other than a frame.
pub open spec fn walk_read<F: Fn(u64, u16) -> TableEntry>(read_entry: F, addr: u64, top: u64, entries: Seq<TableEntry>) -> bool {
    &&& 1 <= entries.len() <= 4
    &&& forall|k: int| 0 <= k < entries.len() ==> read_entry.ensures(
        (walk_frame(top, entries, k), page_table_index(addr, 4 - k)),
        #[trigger] entries[k],
    )
    &&& forall|k: int| 0 <= k < entries.len() - 1 ==> (#[trigger] entries[k]) is Frame
    &&& entries.len() < 4 ==> !(entries.last() is Frame)
}

/// Where a walk that read `entries` leads for `addr`.
pub open spec fn walk_outcome(addr: u64, entries: Seq<TableEntry>) -> Translation {
    match entries.last() {
        TableEntry::Frame(f) => Translation::Mapped((f + addr % 4096) as u64),
        TableEntry::NotPresent => Translation::NotMapped,
        TableEntry::HugeFrame => Translation::HugePage,
    }
}

/// The index of `addr` in the page table of `level`.
pub fn table_index(addr: u64, level: u64) -> (r: u16)
    requires
        1 <= level <= 4,
    ensures
        r == page_table_index(addr, level as int),
        r < 512,
{
    let divisor: u64 = if level == 1 {
        0x1000
    } else if level == 2 {
        0x20_0000
    } else if level == 3 {
        0x4000_0000
    } else {
        0x80_0000_0000
    };
    ((addr / divisor) % 512) as u16
}

/// Walks the four levels of page tables from the top table in the frame
/// `level_4_frame` to find where the virtual address `addr` leads.
/// `read_entry` reads the entry at an index of the table in a frame.
pub fn translate_addr<F: Fn(u64, u16) -> TableEntry>(addr: u64, level_4_frame: u64, read_entry: F) -> (r: Translation)
    requires
        phys_addr_valid(level_4_frame),
        forall|f: u64, i: u16| phys_addr_valid(f) && i < 512 ==> read_entry.requires((f, i)),
        forall|f: u64, i: u16, e: TableEntry| read_entry.ensures((f, i), e) ==> entry_valid(e),
    ensures
        exists|entries: Seq<TableEntry>| walk_read(read_entry, addr, level_4_frame, entries) && r == walk_outcome(addr, entries),
{
    let mut frame = level_4_frame;
    let mut level: u64 = 4;
    let ghost mut entries: Seq<TableEntry> = Seq::empty();
    while level >= 1
        invariant
            0 <= level <= 4,
            entries.len() == 4 - level,
            phys_addr_valid(frame),
            frame == walk_frame(level_4_frame, entries, entries.len() as int),
            forall|f: u64, i: u16| phys_addr_valid(f) && i < 512 ==> read_entry.requires((f, i)),
            forall|f: u64, i: u16, e: TableEntry| read_entry.ensures((f, i), e) ==> entry_valid(e),
            forall|k: int| 0 <= k < entries.len() ==> read_entry.ensures(
                (walk_frame(level_4_frame, entries, k), page_table_index(addr, 4 - k)),
                #[trigger] entries[k],
            ),
            forall|k: int| 0 <= k < entries.len() ==> (#[trigger] entries[k]) is Frame,
            level == 0 ==> frame % 4096 == 0,
        decreases level,
    {
        let index = table_index(addr, level);
        let entry = read_entry(frame, index);
        let ghost before = entries;
        proof {
            entries = entries.push(entry);
            assert forall|k: int| 0 <= k < entries.len() implies read_entry.ensures(
                (walk_frame(level_4_frame, entries, k), page_table_index(addr, 4 - k)),
                #[trigger] entries[k],
            ) by {
                if k < before.len() {
                    assert(entries[k] == before[k]);
                    assert(walk_frame(level_4_frame, entries, k) == walk_frame(level_4_frame, before, k));
                }
            }
        }
        match entry {
            TableEntry::Frame(next) => {
                frame = next;
            },
            TableEntry::NotPresent => {
                proof {
                    assert(entries.last() == entry);
                    assert(walk_read(read_entry, addr, level_4_frame, entries));
                    assert(walk_outcome(addr, entries) == Translation::NotMapped);
                }
                return Translation::NotMapped;
            },
            TableEntry::HugeFrame => {
                proof {
                    assert(entries.last() == entry);
                    assert(walk_read(read_entry, addr, level_4_frame, entries));
                    assert(walk_outcome(addr, entries) == Translation::HugePage);
                }
                return Translation::HugePage;
            },
        }
        level = level - 1;
    }
    proof {
        assert(walk_read(read_entry, addr, level_4_frame, entries));
        assert(entries.last() == TableEntry::Frame(frame));
        assert(walk_outcome(addr, entries) == Translation::Mapped((frame + addr % 4096) as u64));
    }
    Translation::Mapped(frame + addr % 4096)
}

/// A frame allocator that hands out the usable frames of the boot memory
/// map, in order, never twice.
pub struct BootInfoFrameAllocator {
    memory_map: Vec<MemoryRegion>,
    next: usize,
}

/// A frame allocator that has no frames to give.
pub struct EmptyFrameAllocator;

impl BootInfoFrameAllocator {
    /// The regions of the memory map.
    pub closed spec fn regions(&self) -> Seq<MemoryRegion> {
        self.memory_map@
    }

    /// How many frames have been asked for so far.
    pub closed spec fn handed_out(&self) -> nat {
        self.next as nat
    }

    /// How many frames have been asked for so far.
    pub fn handed_out_count(&self) -> (r: usize)
        ensures
            r == self.handed_out(),
    {
        self.next
    }

    /// An allocator over `memory_map` that has handed out no frame.
    pub fn init(memory_map: Vec<MemoryRegion>) -> (r: Self)
        ensures
            r.regions() == memory_map@,
            r.handed_out() == 0,
    {
        BootInfoFrameAllocator { memory_map, next: 0 }
    }

    /// The start address of the `n`-th usable frame of the memory map,
    /// counting from zero, if there are so many.
    pub fn nth_usable_frame(&self, n: usize) -> (r: Option<u64>)
        requires
            usable_regions_valid(self.regions()),
        ensures
            r == (if n < usable_frames(self.regions()).len() {
                Some(usable_frames(self.regions())[n as int])
            } else {
                None
            }),
    {
        let ghost regions = self.memory_map@;
        let mut remaining: u64 = n as u64;
        let mut i: usize = 0;
        while i < self.memory_map.len()
            invariant
                regions == self.memory_map@,
                usable_regions_valid(regions),
                i <= regions.len(),
                remaining + usable_frames(regions.take(i as int)).len() == n,
            decreases regions.len() - i,
        {
            let region = &self.memory_map[i];
            proof {
                if regions[i as int].usable {
                    assert(region_valid(regions[i as int]));
                }
                assert(regions.take(i + 1).drop_last() =~= regions.take(i as int));
                assert(regions.take(i + 1).last() == regions[i as int]);
            }
            if region.usable {
                let count = region.end_frame_number - region.start_frame_number;
                if remaining < count {
                    let addr = (region.start_frame_number + remaining) * PAGE_SIZE;
                    let frame = frame_containing(addr);
                    proof {
                        lemma_usable_frames_prefix(regions, i + 1);
                        let prev = usable_frames(regions.take(i as int));
                        assert(usable_frames(regions.take(i + 1)) == prev + region_frames(regions[i as int]));
                        assert(usable_frames(regions.take(i + 1))[n as int] == region_frames(regions[i as int])[remaining as int]);
                        assert(addr % 4096 == 0) by (nonlinear_arith)
                            requires addr == (region.start_frame_number + remaining) * 4096;
                    }
                    return Some(frame);
                }
                remaining = remaining - count;
            }
            i = i + 1;
        }
        proof {
            assert(regions.take(i as int) =~= regions);
        }
        None
    }

    /// Hands out the next usable frame of the memory map, if there is one
    /// left: the frame whose position among the usable frames is the number
    /// of frames asked for before.
    pub fn allocate_frame(&mut self) -> (r: Option<u64>)
        requires
            usable_regions_valid(old(self).regions()),
            old(self).handed_out() < usize::MAX,
        ensures
            final(self).regions() == old(self).regions(),
            final(self).handed_out() == old(self).handed_out() + 1,
            r == (if old(self).handed_out() < usable_frames(old(self).regions()).len() {
                Some(usable_frames(old(self).regions())[old(self).handed_out() as int])
            } else {
                None
            }),
    {
        let frame = self.nth_usable_frame(self.next);
        self.next = self.next + 1;
        frame
    }
}

/// The usable frames of a prefix of the memory map come first among the
/// usable frames of the whole map.
proof fn lemma_usable_frames_prefix(regions: Seq<MemoryRegion>, j: int)
    requires
        0 <= j <= regions.len(),
    ensures
        usable_frames(regions.take(j)).len() <= usable_frames(regions).len(),
        forall|k: int| 0 <= k < usable_frames(regions.take(j)).len() ==> #[trigger] usable_frames(regions.take(j))[k] == usable_frames(regions)[k],
    decreases regions.len(),
{
    if j == regions.len() {
        assert(regions.take(j) =~= regions);
    } else {
        let prev = regions.drop_last();
        lemma_usable_frames_prefix(prev, j);
        assert(prev.take(j) =~= regions.take(j));
    }
}

/// Every frame of every usable region is handed out: the usable frames of
/// a valid memory map hold the start address of each frame of each usable
/// region.
pub proof fn lemma_usable_region_frames_handed_out(regions: Seq<MemoryRegion>, i: int, f: u64)
    requires
        usable_regions_valid(regions),
        0 <= i < regions.len(),
        regions[i].usable,
        regions[i].start_frame_number <= f < regions[i].end_frame_number,
    ensures
        usable_frames(regions).contains((f * PAGE_SIZE) as u64),
        f * PAGE_SIZE <= u64::MAX,
    decreases regions.len(),
{
    let prev = regions.drop_last();
    let last = regions.len() - 1;
    assert(region_valid(regions[i]));
    assert(f * 4096 <= u64::MAX) by (nonlinear_arith)
        requires f < regions[i].end_frame_number, regions[i].end_frame_number <= 0x100_0000_0000u64;
    if i < last {
        assert(usable_regions_valid(prev)) by {
            assert forall|k: int| 0 <= k < prev.len() && (#[trigger] prev[k]).usable implies region_valid(prev[k]) by {
                assert(prev[k] == regions[k]);
            }
        }
        assert(prev[i] == regions[i]);
        lemma_usable_region_frames_handed_out(prev, i, f);
        let p = usable_frames(prev);
        let x = choose|x: int| 0 <= x < p.len() && p[x] == (f * PAGE_SIZE) as u64;
        if regions.last().usable {
            assert(usable_frames(regions)[x] == p[x]);
        } else {
            assert(usable_frames(regions) == p);
        }
    } else {
        let r = regions[last];
        let p = usable_frames(prev);
        let q = region_frames(r);
        let m = f - r.start_frame_number;
        assert(q[m] == (f * PAGE_SIZE) as u64);
        assert(usable_frames(regions)[p.len() + m] == q[m]);
    }
}

/// Every usable frame lies in a usable region of the memory map.
pub proof fn lemma_usable_frame_in_usable_region(regions: Seq<MemoryRegion>, k: int)
    requires
        usable_regions_valid(regions),
        0 <= k < usable_frames(regions).len(),
    ensures
        exists|i: int| 0 <= i < regions.len() && (#[trigger] regions[i]).usable
            && regions[i].start_frame_number * PAGE_SIZE <= usable_frames(regions)[k] < regions[i].end_frame_number * PAGE_SIZE
            && usable_frames(regions)[k] % PAGE_SIZE == 0,
    decreases regions.len(),
{
    let prev = regions.drop_last();
    assert(usable_regions_valid(prev)) by {
        assert forall|i: int| 0 <= i < prev.len() && (#[trigger] prev[i]).usable implies region_valid(prev[i]) by {
            assert(prev[i] == regions[i]);
        }
    }
    let last = regions.len() - 1;
    if k < usable_frames(prev).len() {
        lemma_usable_frame_in_usable_region(prev, k);
        let i = choose|i: int| 0 <= i < prev.len() && (#[trigger] prev[i]).usable
            && prev[i].start_frame_number * PAGE_SIZE <= usable_frames(prev)[k] < prev[i].end_frame_number * PAGE_SIZE
            && usable_frames(prev)[k] % PAGE_SIZE == 0;
        assert(regions[i] == prev[i]);
        assert(usable_frames(regions)[k] == usable_frames(prev)[k]);
    } else {
        let r = regions[last];
        assert(r.usable);
        assert(region_valid(r));
        let m = k - usable_frames(prev).len();
        assert(usable_frames(regions)[k] == region_frames(r)[m]);
        let f = (r.start_frame_number + m) * PAGE_SIZE;
        assert(f < r.end_frame_number * PAGE_SIZE && r.start_frame_number * PAGE_SIZE <= f && f % 4096 == 0) by (nonlinear_arith)
            requires f == (r.start_frame_number + m) * 4096, 0 <= m, r.start_frame_number + m < r.end_frame_number;
        assert(f <= u64::MAX) by (nonlinear_arith)
            requires f == (r.start_frame_number + m) * 4096, r.start_frame_number + m < r.end_frame_number,
                r.end_frame_number <= 0x100_0000_0000u64;
        assert(regions[last].usable);
    }
}

/// In a memory map whose usable regions do not overlap, no usable frame
/// comes twice, so the allocator never hands out the same frame twice.
pub proof fn lemma_usable_frames_distinct(regions: Seq<MemoryRegion>)
    requires
        usable_regions_valid(regions),
        usable_regions_disjoint(regions),
    ensures
        usable_frames(regions).no_duplicates(),
    decreases regions.len(),
{
    if regions.len() > 0 {
        let prev = regions.drop_last();
        let last = regions.len() - 1;
        let r = regions[last];
        assert(usable_regions_valid(prev)) by {
            assert forall|i: int| 0 <= i < prev.len() && (#[trigger] prev[i]).usable implies region_valid(prev[i]) by {
                assert(prev[i] == regions[i]);
            }
        }
        assert(usable_regions_disjoint(prev)) by {
            assert forall|i: int, j: int| 0 <= i < j < prev.len() && (#[trigger] prev[i]).usable && (#[trigger] prev[j]).usable
                implies prev[i].end_frame_number <= prev[j].start_frame_number || prev[j].end_frame_number <= prev[i].start_frame_number by {
                assert(prev[i] == regions[i] && prev[j] == regions[j]);
            }
        }
        lemma_usable_frames_distinct(prev);
        if r.usable {
            assert(region_valid(r));
            let p = usable_frames(prev);
            let q = region_frames(r);
            let all = usable_frames(regions);
            assert(all == p + q);
            let s = r.start_frame_number;
            assert forall|i: int, j: int| 0 <= i < all.len() && 0 <= j < all.len() && i != j implies all[i] != all[j] by {
                if i < p.len() && j < p.len() {
                    assert(all[i] == p[i] && all[j] == p[j]);
                } else if i >= p.len() && j >= p.len() {
                    let a = i - p.len();
                    let b = j - p.len();
                    assert(all[i] == q[a] && all[j] == q[b]);
                    assert((s + a) * 4096 != (s + b) * 4096) by (nonlinear_arith)
                        requires a != b;
                    assert((s + a) * 4096 <= u64::MAX && (s + b) * 4096 <= u64::MAX) by (nonlinear_arith)
                        requires s + a < r.end_frame_number, s + b < r.end_frame_number, r.end_frame_number <= 0x100_0000_0000u64;
                } else {
                    let (x, y) = if i < p.len() { (i, j) } else { (j, i) };
                    let m = y - p.len();
                    assert(all[x] == p[x]);
                    assert(all[y] == q[m]);
                    lemma_usable_frame_in_usable_region(prev, x);
                    let t = choose|t: int| 0 <= t < prev.len() && (#[trigger] prev[t]).usable
                        && prev[t].start_frame_number * PAGE_SIZE <= p[x] < prev[t].end_frame_number * PAGE_SIZE
                        && p[x] % PAGE_SIZE == 0;
                    assert(prev[t] == regions[t]);
                    let o = regions[t];
                    let f = (s + m) * 4096;
                    assert(f <= u64::MAX && s * 4096 <= f && f < r.end_frame_number * 4096) by (nonlinear_arith)
                        requires f == (s + m) * 4096, 0 <= m, s + m < r.end_frame_number, r.end_frame_number <= 0x100_0000_0000u64;
                    assert(q[m] == f);
                    if o.end_frame_number <= s {
                        assert(o.end_frame_number * 4096 <= s * 4096) by (nonlinear_arith)
                            requires o.end_frame_number <= s;
                    } else {
                        assert(r.end_frame_number <= o.start_frame_number);
                        assert(r.end_frame_number * 4096 <= o.start_frame_number * 4096) by (nonlinear_arith)
                            requires r.end_frame_number <= o.start_frame_number;
                    }
                }
            }
        } else {
            assert(usable_frames(regions) == usable_frames(prev));
        }
    }
}

} // verus!
