//! The address space of a dump: its bytes, its sections, and an index of the
//! 4 KiB pages that its sections reach, with typed reads in either byte order.

use crate::buffer::DataBuffer;
use crate::endian::{
    be_read_i32, be_read_i64, be_read_u128, be_read_u16, be_read_u32, be_read_u64, be_value, head,
    le_read_i32, le_read_i64, le_read_u128, le_read_u16, le_read_u32, le_read_u64, le_value,
    signed32, signed64,
};
use crate::memory::{info_fits, MemRange, MemRanges};
use crate::pointers::PointerRange;
use crate::radare::RadareMemoryInfos;
use std::collections::HashMap;
use vstd::prelude::*;

verus! {

/// The size of a page of virtual memory.
pub const PAGE_SIZE: u64 = 4096;

/// What is left of an address when its offset into its page is cleared.
pub const PAGE_MASK: u64 = 0xffff_ffff_ffff_f000;

/// A number read from a buffer, and how many bytes it took.
#[derive(Debug, Clone, Copy, PartialEq, Eq, Structural)]
pub struct ReadValue {
    pub consumed: u64,
    pub value: u64,
}

/// The order of the bytes of a number in memory.
#[allow(non_camel_case_types)]
#[derive(Debug, Clone, Copy, PartialEq, Eq, Structural)]
pub enum ENDIAN {
    BIG,
    LITTLE,
}

/// The first address of the page that holds `addr`.
pub open spec fn page_of(addr: u64) -> u64 {
    (addr - addr % 4096) as u64
}

/// Whether `v` is a multiple of `alignment`; every address is where the
/// alignment is zero.
pub open spec fn is_aligned(v: u64, alignment: u8) -> bool {
    alignment == 0 || v % (alignment as u64) == 0
}

/// Whether `p` is a page that the range reaches: the page of its first
/// address, and every later page that begins before its end.
pub open spec fn range_has_page(r: PointerRange, p: u64) -> bool {
    &&& p % 4096 == 0
    &&& page_of(r.vstart) <= p
    &&& (p < r.vend || p == page_of(r.vstart))
}

/// The number of the first range of `rs` that reaches the page `p`: a page
/// stays with the range that reached it first.
pub open spec fn page_owner(rs: Seq<PointerRange>, p: u64) -> Option<int>
    decreases rs.len(),
{
    if rs.len() == 0 {
        None
    } else {
        match page_owner(rs.drop_last(), p) {
            Some(i) => Some(i),
            None => if range_has_page(rs.last(), p) {
                Some(rs.len() - 1)
            } else {
                None
            },
        }
    }
}

/// The entry of the page `q` once the range `r`, of the number `idx`, has
/// taken the pages it reaches among those that `reached` tells of: a page
/// that had an entry keeps it.
pub open spec fn entry_after(
    before: Map<u64, usize>,
    r: PointerRange,
    idx: int,
    q: u64,
    reached: bool,
) -> Option<int> {
    if page_entry(before, q) is Some {
        page_entry(before, q)
    } else if range_has_page(r, q) && reached {
        Some(idx)
    } else {
        None
    }
}

/// The entry of a page table for the page `p`.
pub open spec fn page_entry(pages: Map<u64, usize>, p: u64) -> Option<int> {
    if pages.contains_key(p) {
        Some(pages[p] as int)
    } else {
        None
    }
}

/// The owner of a page is a range of the list that reaches the page, and no
/// range before it does; a page without owner is reached by none.
pub proof fn lemma_page_owner(rs: Seq<PointerRange>, p: u64)
    ensures
        page_owner(rs, p) matches Some(i) ==> 0 <= i < rs.len() && range_has_page(rs[i], p)
            && forall|j: int| 0 <= j < i ==> !range_has_page(#[trigger] rs[j], p),
        page_owner(rs, p) is None ==> forall|j: int|
            0 <= j < rs.len() ==> !range_has_page(#[trigger] rs[j], p),
    decreases rs.len(),
{
    if rs.len() > 0 {
        let front = rs.drop_last();
        lemma_page_owner(front, p);
        assert(forall|j: int| 0 <= j < front.len() ==> front[j] == rs[j]);
        match page_owner(front, p) {
            Some(i) => {
                assert(rs[i] == front[i]);
                assert forall|j: int| 0 <= j < i implies !range_has_page(#[trigger] rs[j], p) by {
                    assert(rs[j] == front[j]);
                }
            },
            None => {
                assert forall|j: int| 0 <= j < rs.len() - 1 implies !range_has_page(
                    #[trigger] rs[j],
                    p,
                ) by {
                    assert(rs[j] == front[j]);
                }
            },
        }
    }
}

/// Clearing the low twelve bits of an address gives the start of its page.
pub proof fn lemma_page_mask(addr: u64)
    ensures
        addr & PAGE_MASK == page_of(addr),
        page_of(addr) <= addr,
        addr - page_of(addr) < 4096,
        page_of(addr) % 4096 == 0,
{
    assert(addr & 0xffff_ffff_ffff_f000u64 == addr - addr % 4096) by (bit_vector);
}

/// The parameters of an address space and its page index.
pub struct VMemInfo {
    word_sz: u8,
    alignment: u8,
    ptr_ranges: Vec<PointerRange>,
    ptr_lookup: HashMap<u64, usize>,
    endian: ENDIAN,
}

impl VMemInfo {
    /// The ranges entered so far, in the order of their entry.
    pub closed spec fn ranges(&self) -> Seq<PointerRange> {
        self.ptr_ranges@
    }

    /// The page index: for each indexed page, the number of its range.
    pub closed spec fn pages(&self) -> Map<u64, usize> {
        self.ptr_lookup@
    }

    /// The size of a machine word, in bytes.
    pub closed spec fn word_size(&self) -> u8 {
        self.word_sz
    }

    /// The alignment asked of a pointer, in bytes.
    pub closed spec fn align(&self) -> u8 {
        self.alignment
    }

    /// The byte order of numbers in the dump.
    pub closed spec fn byte_order(&self) -> ENDIAN {
        self.endian
    }

    /// The page index holds exactly the pages that some entered range
    /// reaches, each with the first range that reaches it.
    pub open spec fn wf(&self) -> bool {
        forall|p: u64| #[trigger] page_entry(self.pages(), p) == page_owner(self.ranges(), p)
    }

    /// Whether the page of `vaddr` is indexed.
    pub open spec fn is_mapped(&self, vaddr: u64) -> bool {
        self.pages().contains_key(page_of(vaddr))
    }

    /// The range that owns the page of `vaddr`.
    pub open spec fn range_of(&self, vaddr: u64) -> PointerRange
        recommends
            self.is_mapped(vaddr),
    {
        self.ranges()[self.pages()[page_of(vaddr)] as int]
    }

    /// Whether the two hold the same parameters, whatever they index.
    pub open spec fn same_parameters(&self, other: &VMemInfo) -> bool {
        &&& self.word_size() == other.word_size()
        &&& self.align() == other.align()
        &&& self.byte_order() == other.byte_order()
    }

    /// Little-endian 8-byte words, pointers aligned to 8, nothing indexed.
    pub fn new() -> (info: Self)
        ensures
            info.wf(),
            info.word_size() == 8,
            info.align() == 8,
            info.byte_order() == ENDIAN::LITTLE,
            info.ranges().len() == 0,
    {
        let info = VMemInfo {
            word_sz: 8,
            alignment: 8,
            ptr_ranges: Vec::new(),
            ptr_lookup: HashMap::new(),
            endian: ENDIAN::LITTLE,
        };
        assert(info.pages() =~= Map::<u64, usize>::empty());
        info
    }

    pub fn get_word_sz(&self) -> (w: u8)
        ensures
            w == self.word_size(),
    {
        self.word_sz
    }

    pub fn get_alignment(&self) -> (a: u8)
        ensures
            a == self.align(),
    {
        self.alignment
    }

    pub fn get_endian(&self) -> (e: ENDIAN)
        ensures
            e == self.byte_order(),
    {
        self.endian
    }

    /// Sets the byte order.
    pub fn set_endian(&mut self, endian: ENDIAN)
        ensures
            final(self).byte_order() == endian,
            final(self).word_size() == old(self).word_size(),
            final(self).align() == old(self).align(),
            final(self).ranges() == old(self).ranges(),
            final(self).pages() == old(self).pages(),
    {
        self.endian = endian;
    }

    /// Sets the alignment asked of a pointer and returns it: a given power of
    /// two up to 16, or zero, is taken as it is; any other given number stands
    /// for the word size; 4 where none is given.
    pub fn set_alignment(&mut self, o_alignment: Option<u8>) -> (a: u8)
        ensures
            a == final(self).align(),
            a == match o_alignment {
                Some(x) => if x == 0 || x == 1 || x == 2 || x == 4 || x == 8 || x == 16 {
                    x
                } else {
                    old(self).word_size()
                },
                None => 4u8,
            },
            final(self).word_size() == old(self).word_size(),
            final(self).byte_order() == old(self).byte_order(),
            final(self).ranges() == old(self).ranges(),
            final(self).pages() == old(self).pages(),
    {
        let alignment: u8 = match o_alignment {
            Some(a) => if a == 0 || a == 1 || a == 2 || a == 4 || a == 8 || a == 16 {
                a
            } else {
                self.word_sz
            },
            None => 4,
        };
        self.alignment = alignment;
        self.alignment
    }

    /// Sets the size of a machine word and returns it: a given 2, 4, 8 or 16 is
    /// taken as it is; 4 for any other number, and where none is given.
    pub fn set_word_sz(&mut self, o_word_sz: Option<u8>) -> (w: u8)
        ensures
            w == final(self).word_size(),
            w == match o_word_sz {
                Some(x) => if x == 2 || x == 4 || x == 8 || x == 16 {
                    x
                } else {
                    4u8
                },
                None => 4u8,
            },
            final(self).align() == old(self).align(),
            final(self).byte_order() == old(self).byte_order(),
            final(self).ranges() == old(self).ranges(),
            final(self).pages() == old(self).pages(),
    {
        let word_sz: u8 = match o_word_sz {
            Some(a) => if a == 2 || a == 4 || a == 8 || a == 16 {
                a
            } else {
                4
            },
            None => 4,
        };
        self.word_sz = word_sz;
        self.word_sz
    }

    /// The first address of the page of `addr`.
    pub fn get_page(&self, addr: &u64) -> (p: u64)
        ensures
            p == page_of(*addr),
    {
        proof {
            lemma_page_mask(*addr);
        }
        *addr & PAGE_MASK
    }

    /// The number of the range that owns the page of `vaddr`.
    fn owner_of(&self, vaddr: u64) -> (r: Option<usize>)
        requires
            self.wf(),
        ensures
            r is Some <==> self.is_mapped(vaddr),
            r matches Some(i) ==> i < self.ranges().len() && i == self.pages()[page_of(vaddr)],
    {
        let cpage = self.get_page(&vaddr);
        proof {
            lemma_page_owner(self.ranges(), cpage);
            assert(page_entry(self.pages(), cpage) == page_owner(self.ranges(), cpage));
        }
        match self.ptr_lookup.get(&cpage) {
            Some(i) => Some(*i),
            None => None,
        }
    }

    /// The first virtual address of the range that owns the page of `vaddr`.
    pub fn get_vaddr_base(&self, vaddr: &u64) -> (r: Option<u64>)
        requires
            self.wf(),
        ensures
            r is Some <==> self.is_mapped(*vaddr),
            r matches Some(b) ==> b == self.range_of(*vaddr).vstart,
    {
        match self.owner_of(*vaddr) {
            Some(i) => Some(self.ptr_ranges[i].vstart),
            None => None,
        }
    }

    /// The first dump offset of the range that owns the page of `vaddr`.
    pub fn get_paddr_base_from_vaddr(&self, vaddr: &u64) -> (r: Option<u64>)
        requires
            self.wf(),
        ensures
            r is Some <==> self.is_mapped(*vaddr),
            r matches Some(b) ==> b == self.range_of(*vaddr).pstart,
    {
        match self.owner_of(*vaddr) {
            Some(i) => Some(self.ptr_ranges[i].pstart),
            None => None,
        }
    }

    /// Whether `vaddr` is aligned and its page is indexed.
    pub fn is_pointer_with_alignment(&self, vaddr: &u64) -> (b: bool)
        requires
            self.wf(),
        ensures
            b == (is_aligned(*vaddr, self.align()) && self.is_mapped(*vaddr)),
    {
        if self.alignment != 0 && *vaddr % (self.alignment as u64) != 0 {
            return false;
        }
        self.contains_pointer_range(vaddr)
    }

    /// Whether the page of `vaddr` is indexed.
    pub fn contains_pointer_range(&self, vaddr: &u64) -> (b: bool)
        requires
            self.wf(),
        ensures
            b == self.is_mapped(*vaddr),
    {
        self.owner_of(*vaddr).is_some()
    }

    /// The range that owns the page of `vaddr`.
    pub fn get_pointer_range_by_vaddr(&self, vaddr: u64) -> (r: Option<&PointerRange>)
        requires
            self.wf(),
        ensures
            r is Some <==> self.is_mapped(vaddr),
            r matches Some(pr) ==> *pr == self.range_of(vaddr),
    {
        match self.owner_of(vaddr) {
            Some(i) => Some(&self.ptr_ranges[i]),
            None => None,
        }
    }

    /// The dump offset that the range owning the page of `vaddr` gives it: as
    /// far from the range's first offset as `vaddr` is from its first address,
    /// counted modulo 2^64. For an address within the range this is its
    /// offset in the dump.
    pub open spec fn translate(&self, vaddr: u64) -> u64
        recommends
            self.is_mapped(vaddr),
    {
        let r = self.range_of(vaddr);
        ((r.pstart + vaddr - r.vstart) % 0x1_0000_0000_0000_0000) as u64
    }

    /// The dump offset of `vaddr` by the range that owns its page.
    pub fn convert_vaddr_to_paddr(&self, vaddr: &u64) -> (r: Option<u64>)
        requires
            self.wf(),
        ensures
            r is Some <==> self.is_mapped(*vaddr),
            r matches Some(p) ==> p == self.translate(*vaddr),
    {
        match self.owner_of(*vaddr) {
            Some(i) => {
                let vaddr_base: u64 = self.ptr_ranges[i].vstart;
                let paddr_base: u64 = self.ptr_ranges[i].pstart;
                Some(paddr_base.wrapping_add(vaddr.wrapping_sub(vaddr_base)))
            },
            None => None,
        }
    }

    /// Enters the range of `size` bytes at the dump offset `paddr` and the
    /// virtual address `vaddr`, and returns its number.
    pub fn create_pointer_range(&mut self, paddr: u64, vaddr: u64, size: u64) -> (n: usize)
        requires
            old(self).wf(),
            paddr + size <= u64::MAX,
            vaddr + size <= u64::MAX,
        ensures
            final(self).wf(),
            final(self).same_parameters(old(self)),
            n == old(self).ranges().len(),
            final(self).ranges().len() == n + 1,
            final(self).ranges().subrange(0, n as int) == old(self).ranges(),
            final(self).ranges()[n as int].pstart == paddr,
            final(self).ranges()[n as int].pend == paddr + size,
            final(self).ranges()[n as int].vstart == vaddr,
            final(self).ranges()[n as int].vend == vaddr + size,
    {
        let n: usize = self.ptr_ranges.len();
        let ptr_range = PointerRange::new(paddr, paddr + size, vaddr, vaddr + size);
        self.add_pointer_range(ptr_range);
        assert(self.ranges().subrange(0, n as int) =~= old(self).ranges());
        n
    }

    /// Enters a range: every page it reaches that no range entered before
    /// reaches is indexed as its own. Tells whether the page of its first
    /// address was among them.
    pub fn add_pointer_range(&mut self, ptr_range: PointerRange) -> (added: bool)
        requires
            old(self).wf(),
        ensures
            final(self).wf(),
            final(self).same_parameters(old(self)),
            final(self).ranges() == old(self).ranges().push(ptr_range),
            added == !old(self).is_mapped(ptr_range.vstart),
    {
        let idx: usize = self.ptr_ranges.len();
        let vstart: u64 = ptr_range.vstart;
        let vaddr_end: u64 = ptr_range.vend;
        let first: u64 = self.get_page(&vstart);
        let added: bool = !self.ptr_lookup.contains_key(&first);
        let mut cpage: u64 = first;
        let mut more: bool = true;
        proof {
            lemma_page_mask(vstart);
        }
        while more
            invariant
                self.word_sz == old(self).word_sz,
                self.alignment == old(self).alignment,
                self.endian == old(self).endian,
                self.ptr_ranges == old(self).ptr_ranges,
                first == page_of(vstart),
                vstart == ptr_range.vstart,
                vaddr_end == ptr_range.vend,
                cpage % 4096 == 0,
                first <= cpage,
                cpage == first || cpage < vaddr_end,
                forall|q: u64| #[trigger]
                    page_entry(self.ptr_lookup@, q) == entry_after(
                        old(self).ptr_lookup@,
                        ptr_range,
                        idx as int,
                        q,
                        q < cpage || !more,
                    ),
            decreases (u64::MAX - cpage) + (if more { 1int } else { 0int }),
        {
            let ghost before = self.ptr_lookup@;
            let ghost prev = cpage;
            if !self.ptr_lookup.contains_key(&cpage) {
                self.ptr_lookup.insert(cpage, idx);
            }
            if cpage > u64::MAX - PAGE_SIZE || cpage + PAGE_SIZE >= vaddr_end {
                more = false;
            } else {
                cpage = cpage + PAGE_SIZE;
            }
            assert forall|q: u64| #[trigger]
                page_entry(self.ptr_lookup@, q) == entry_after(
                    old(self).ptr_lookup@,
                    ptr_range,
                    idx as int,
                    q,
                    q < cpage || !more,
                ) by {
                assert(page_entry(before, q) == entry_after(
                    old(self).ptr_lookup@,
                    ptr_range,
                    idx as int,
                    q,
                    q < prev,
                ));
                if range_has_page(ptr_range, q) && q > prev {
                    assert(q >= prev + 4096);
                }
            }
        }
        self.ptr_ranges.push(ptr_range);
        proof {
            let rs = self.ranges();
            assert(rs.drop_last() =~= old(self).ranges());
            assert forall|p: u64| #[trigger]
                page_entry(self.pages(), p) == page_owner(self.ranges(), p) by {
                assert(page_entry(old(self).pages(), p) == page_owner(old(self).ranges(), p));
            }
        }
        added
    }

    /// Every entered range, in the order of entry.
    pub fn get_pointer_range_vec(&self) -> (r: Vec<&PointerRange>)
        ensures
            r@.len() == self.ranges().len(),
            forall|i: int| 0 <= i < r@.len() ==> *(#[trigger] r@[i]) == self.ranges()[i],
    {
        let mut v_ranges: Vec<&PointerRange> = Vec::new();
        let mut i: usize = 0;
        while i < self.ptr_ranges.len()
            invariant
                i <= self.ptr_ranges@.len(),
                v_ranges@.len() == i,
                forall|j: int| 0 <= j < i ==> *(#[trigger] v_ranges@[j]) == self.ptr_ranges@[j],
            decreases self.ptr_ranges@.len() - i,
        {
            v_ranges.push(&self.ptr_ranges[i]);
            i += 1;
        }
        v_ranges
    }
}


/// The number that `s` spells in the byte order `endian`.
pub open spec fn spec_value(endian: ENDIAN, s: Seq<u8>) -> nat {
    match endian {
        ENDIAN::BIG => be_value(s),
        ENDIAN::LITTLE => le_value(s),
    }
}

/// The low 64 bits of a 128-bit number.
fn low_half(x: u128) -> (r: u64)
    ensures
        r == x % 0x1_0000_0000_0000_0000,
{
    assert((x & 0xffff_ffff_ffff_ffffu128) == x % 0x1_0000_0000_0000_0000u128) by (bit_vector);
    assert((x & 0xffff_ffff_ffff_ffffu128) <= 0xffff_ffff_ffff_ffffu128) by (bit_vector);
    (x & 0xffff_ffff_ffff_ffffu128) as u64
}

/// The word sizes that can be read.
pub open spec fn word_supported(w: u8) -> bool {
    w == 1 || w == 2 || w == 4 || w == 8 || w == 16
}

/// The word of `w` bytes at the start of `buf`: its low 64 bits as the value.
/// Nothing where `buf` is shorter than a word or the word size cannot be read.
pub open spec fn spec_read_word(endian: ENDIAN, w: u8, buf: Seq<u8>) -> Option<ReadValue> {
    if word_supported(w) && w <= buf.len() {
        Some(
            ReadValue {
                consumed: w as u64,
                value: (spec_value(endian, head(buf, w as int)) % 0x1_0000_0000_0000_0000) as u64,
            },
        )
    } else {
        None
    }
}

/// An 8-bit pattern read as a two's complement number.
pub open spec fn signed8(n: nat) -> int {
    if n >= 0x80 {
        n - 0x100
    } else {
        n as int
    }
}

/// A 16-bit pattern read as a two's complement number.
pub open spec fn signed16(n: nat) -> int {
    if n >= 0x8000 {
        n - 0x1_0000
    } else {
        n as int
    }
}

/// The number of bytes of a section that can be addressed: where its size in
/// the dump and its size in memory differ, their common prefix.
pub open spec fn extent(mr: MemRange) -> u64 {
    if mr.size <= mr.vsize {
        mr.size
    } else {
        mr.vsize
    }
}

/// Whether the range has the bounds of the section: its `size` bytes in the
/// dump, its `vsize` addresses in memory.
pub open spec fn range_of_section(r: PointerRange, mr: MemRange) -> bool {
    &&& r.pstart == mr.paddr_start
    &&& r.pend == mr.paddr_start + mr.size
    &&& r.vstart == mr.vaddr_start
    &&& r.vend == mr.vaddr_start + mr.vsize
}

/// A dump with its sections and page index: the address space that the
/// scanners read.
pub struct DataInterface {
    buffer: DataBuffer,
    mem_ranges: MemRanges,
    vmem_info: VMemInfo,
}

impl DataInterface {
    /// The bytes of the dump; none where no dump is loaded.
    pub closed spec fn dump(&self) -> Seq<u8> {
        self.buffer.bytes()
    }

    /// Whether a dump is loaded.
    pub closed spec fn loaded(&self) -> bool {
        self.buffer.data is Some
    }

    /// The sections and their interval maps.
    pub closed spec fn ranges(&self) -> MemRanges {
        self.mem_ranges
    }

    /// The parameters and the page index.
    pub closed spec fn info(&self) -> VMemInfo {
        self.vmem_info
    }

    /// The interval maps and the page index are well formed, and the page of
    /// every address that has a section is indexed.
    pub open spec fn wf(&self) -> bool {
        &&& self.ranges().wf()
        &&& self.info().wf()
        &&& forall|v: u64| (#[trigger] self.ranges().section_of_v(v)) is Some ==> self.info().is_mapped(v)
    }

    /// The section of the virtual address `v`.
    pub open spec fn section_of_v(&self, v: u64) -> Option<MemRange> {
        self.ranges().section_of_v(v)
    }

    /// The section of the dump offset `p`.
    pub open spec fn section_of_p(&self, p: u64) -> Option<MemRange> {
        self.ranges().section_of_p(p)
    }

    /// Whether the page of `v` is indexed.
    pub open spec fn is_mapped_v(&self, v: u64) -> bool {
        self.info().is_mapped(v)
    }

    /// Whether `v` is aligned and its page is indexed.
    pub open spec fn is_aligned_pointer(&self, v: u64) -> bool {
        is_aligned(v, self.info().align()) && self.info().is_mapped(v)
    }

    /// The dump offset of the virtual address `v`: as far into the dump's part
    /// of its section as `v` is into the section. Nothing where `v` has no
    /// section or lies past the section's addressable bytes.
    pub open spec fn v_to_p(&self, v: u64) -> Option<u64> {
        match self.section_of_v(v) {
            Some(s) => if v - s.vaddr_start < extent(s) {
                Some((s.paddr_start + (v - s.vaddr_start)) as u64)
            } else {
                None
            },
            None => None,
        }
    }

    /// The addressable bytes of a section, where the dump holds them all.
    pub open spec fn section_bytes(&self, mr: MemRange) -> Option<Seq<u8>> {
        if self.loaded() && mr.paddr_start + extent(mr) <= self.dump().len() {
            Some(self.dump().subrange(mr.paddr_start as int, mr.paddr_start + extent(mr)))
        } else {
            None
        }
    }

    /// The `n` bytes at the virtual address `v`, where they lie within the
    /// addressable bytes of the section of `v` and within the dump.
    pub open spec fn slice_v(&self, v: u64, n: u64) -> Option<Seq<u8>> {
        match self.section_of_v(v) {
            Some(s) => {
                let off = v - s.vaddr_start;
                if self.loaded() && off + n <= extent(s) && s.paddr_start + off + n
                    <= self.dump().len() {
                    Some(self.dump().subrange(s.paddr_start + off, s.paddr_start + off + n))
                } else {
                    None
                }
            },
            None => None,
        }
    }

    /// The `n` bytes at the dump offset `p`, where they lie within the section
    /// of `p` and within the dump.
    pub open spec fn slice_p(&self, p: u64, n: u64) -> Option<Seq<u8>> {
        match self.section_of_p(p) {
            Some(s) => if self.loaded() && p + n <= s.paddr_start + s.size && p + n
                <= self.dump().len() {
                Some(self.dump().subrange(p as int, p + n))
            } else {
                None
            },
            None => None,
        }
    }

    /// The word at the virtual address `v`.
    pub open spec fn read_word(&self, v: u64) -> Option<ReadValue> {
        match self.slice_v(v, self.info().word_size() as u64) {
            Some(bytes) => spec_read_word(
                self.info().byte_order(),
                self.info().word_size(),
                bytes,
            ),
            None => None,
        }
    }

    pub fn get_buffer(&self) -> (b: &DataBuffer)
        ensures
            b.bytes() == self.dump(),
            b.data is Some <==> self.loaded(),
    {
        &self.buffer
    }

    pub fn get_mem_ranges(&self) -> (m: &MemRanges)
        ensures
            *m == self.ranges(),
    {
        &self.mem_ranges
    }

    pub fn get_vmem_info(&self) -> (i: &VMemInfo)
        ensures
            *i == self.info(),
    {
        &self.vmem_info
    }

    /// The address space of the dump in `buffer` with the sections of the
    /// listing, entered in the listing's order. The page index starts from
    /// `o_vmem_info` (or, without one, from little-endian 8-byte words and
    /// nothing indexed) and takes the range of each stored interval of the
    /// virtual map, in ascending order.
    pub fn new_from_radare_info(
        buffer: DataBuffer,
        radare_infos: &RadareMemoryInfos,
        o_vmem_info: Option<VMemInfo>,
    ) -> (di: Self)
        requires
            forall|i: int|
                0 <= i < radare_infos.items@.len() ==> info_fits(#[trigger] radare_infos.items@[i]),
            o_vmem_info matches Some(given) ==> given.wf(),
        ensures
            di.wf(),
            di.dump() == buffer.bytes(),
            di.loaded() == (buffer.data is Some),
            di.ranges().sections().len() == radare_infos.items@.len(),
            forall|i: int|
                0 <= i < radare_infos.items@.len() ==> crate::memory::describes(
                    radare_infos.items@[i],
                    #[trigger] di.ranges().sections()[i],
                ),
            match o_vmem_info {
                Some(given) => di.info().same_parameters(&given) && di.info().ranges().subrange(
                    0,
                    given.ranges().len() as int,
                ) == given.ranges(),
                None => di.info().word_size() == 8 && di.info().align() == 8
                    && di.info().byte_order() == ENDIAN::LITTLE,
            },
            ({
                let base = match o_vmem_info {
                    Some(given) => given.ranges().len(),
                    None => 0,
                };
                let e = di.ranges().v_intervals();
                &&& di.info().ranges().len() == base + e.len()
                &&& forall|i: int|
                    0 <= i < e.len() ==> range_of_section(
                        #[trigger] di.info().ranges()[base + i],
                        di.ranges().sections()[e[i].2 as int],
                    )
            }),
    {
        let mut vmem_info = match o_vmem_info {
            Some(v) => v,
            None => VMemInfo::new(),
        };
        let ghost start = vmem_info;
        let ghost base = vmem_info.ranges().len();
        let mem_ranges = MemRanges::from_radare_infos(radare_infos);
        let list = mem_ranges.get_mem_ranges();
        let ghost e = mem_ranges.v_intervals();
        proof {
            mem_ranges.lemma_v_intervals();
        }
        let mut i: usize = 0;
        while i < list.len()
            invariant
                i <= list@.len(),
                list@.len() == e.len(),
                e == mem_ranges.v_intervals(),
                mem_ranges.wf(),
                forall|j: int|
                    0 <= j < e.len() ==> (#[trigger] e[j]).2 < mem_ranges.sections().len(),
                forall|j: int|
                    0 <= j < list@.len() ==> *(#[trigger] list@[j]) == mem_ranges.sections()[e[j].2 as int],
                vmem_info.wf(),
                vmem_info.same_parameters(&start),
                vmem_info.ranges().len() == base + i,
                vmem_info.ranges().subrange(0, base as int) == start.ranges(),
                base == start.ranges().len(),
                forall|j: int|
                    0 <= j < i ==> range_of_section(
                        #[trigger] vmem_info.ranges()[base + j],
                        mem_ranges.sections()[e[j].2 as int],
                    ),
            decreases list@.len() - i,
        {
            let mr: &MemRange = list[i];
            assert(mr.fits());
            let ghost before = vmem_info.ranges();
            let pr = PointerRange::new(
                mr.paddr_start,
                mr.paddr_start + mr.size,
                mr.vaddr_start,
                mr.vaddr_start + mr.vsize,
            );
            vmem_info.add_pointer_range(pr);
            proof {
                assert(vmem_info.ranges().subrange(0, base as int) =~= before.subrange(
                    0,
                    base as int,
                ));
                assert forall|j: int| 0 <= j < i + 1 implies range_of_section(
                    #[trigger] vmem_info.ranges()[base + j],
                    mem_ranges.sections()[e[j].2 as int],
                ) by {
                    if j < i {
                        assert(vmem_info.ranges()[base + j] == before[base + j]);
                    }
                }
            }
            i += 1;
        }
        let di = DataInterface { buffer, mem_ranges, vmem_info };
        proof {
            assert forall|v: u64| (#[trigger] di.ranges().section_of_v(v)) is Some implies di.info().is_mapped(
                v,
            ) by {
                lemma_section_indexed(di.ranges(), di.info(), base as int, v);
            }
        }
        di
    }

    /// The dump offset of the virtual address `vaddr`.
    pub fn convert_vaddr_to_paddr(&self, vaddr: &u64) -> (r: Option<u64>)
        requires
            self.wf(),
        ensures
            r == self.v_to_p(*vaddr),
    {
        match self.mem_ranges.get_vaddr_range(*vaddr) {
            Some(mr) => {
                proof {
                    crate::memory::lemma_v_owner(self.ranges().sections(), *vaddr);
                }
                let off: u64 = *vaddr - mr.vaddr_start;
                let ext: u64 = if mr.size <= mr.vsize { mr.size } else { mr.vsize };
                if off < ext {
                    Some(mr.paddr_start + off)
                } else {
                    None
                }
            },
            None => None,
        }
    }

    /// The name of the section of the virtual address `vaddr`.
    pub fn get_vaddr_section_name(&self, vaddr: u64) -> (r: Option<String>)
        requires
            self.wf(),
        ensures
            r is Some <==> self.section_of_v(vaddr) is Some,
            r matches Some(name) ==> name == self.section_of_v(vaddr)->0.name,
    {
        self.mem_ranges.get_vaddr_section_name(vaddr)
    }

    /// The name of the section of the dump offset `paddr`.
    pub fn get_paddr_section_name(&self, paddr: u64) -> (r: Option<String>)
        requires
            self.wf(),
        ensures
            r is Some <==> self.section_of_p(paddr) is Some,
            r matches Some(name) ==> name == self.section_of_p(paddr)->0.name,
    {
        self.mem_ranges.get_paddr_section_name(paddr)
    }

    /// The first virtual address of the range that owns the page of `vaddr`.
    pub fn get_vaddr_base_from_vaddr(&self, vaddr: &u64) -> (r: Option<u64>)
        requires
            self.wf(),
        ensures
            r is Some <==> self.is_mapped_v(*vaddr),
            r matches Some(b) ==> b == self.info().range_of(*vaddr).vstart,
    {
        self.get_vaddr_base(vaddr)
    }

    /// The first virtual address of the range that owns the page of `vaddr`.
    pub fn get_vaddr_base(&self, vaddr: &u64) -> (r: Option<u64>)
        requires
            self.wf(),
        ensures
            r is Some <==> self.is_mapped_v(*vaddr),
            r matches Some(b) ==> b == self.info().range_of(*vaddr).vstart,
    {
        self.vmem_info.get_vaddr_base(vaddr)
    }

    /// The first dump offset of the range that owns the page of `vaddr`.
    pub fn get_paddr_base_from_vaddr(&self, vaddr: &u64) -> (r: Option<u64>)
        requires
            self.wf(),
        ensures
            r is Some <==> self.is_mapped_v(*vaddr),
            r matches Some(b) ==> b == self.info().range_of(*vaddr).pstart,
    {
        self.vmem_info.get_paddr_base_from_vaddr(vaddr)
    }

    /// The `read_size` bytes at the dump offset `paddr`, where they lie
    /// within one section and within the dump.
    pub fn shared_slice_paddr(&self, paddr: u64, read_size: u64) -> (r: Option<&[u8]>)
        requires
            self.wf(),
        ensures
            r is Some <==> self.slice_p(paddr, read_size) is Some,
            r matches Some(b) ==> Some(b@) == self.slice_p(paddr, read_size),
            r matches Some(b) ==> b@.len() == read_size,
    {
        match self.mem_ranges.get_paddr_range(paddr) {
            None => None,
            Some(mr) => {
                proof {
                    crate::memory::lemma_p_owner(self.ranges().sections(), paddr);
                }
                let end: u64 = mr.paddr_start + mr.size;
                if read_size <= end - paddr {
                    self.buffer.get_shared_slice_from(paddr, Some(read_size))
                } else {
                    None
                }
            },
        }
    }

    /// Whether the dump offset `paddr` has a section.
    pub fn is_paddr_ptr(&self, paddr: u64) -> (b: bool)
        requires
            self.wf(),
        ensures
            b == self.section_of_p(paddr).is_some(),
    {
        self.mem_ranges.has_paddr(paddr)
    }

    /// Whether `vaddr` is aligned and its page is indexed.
    pub fn is_vaddr_ptr(&self, vaddr: u64) -> (b: bool)
        requires
            self.wf(),
        ensures
            b == self.is_aligned_pointer(vaddr),
    {
        self.vmem_info.is_pointer_with_alignment(&vaddr)
    }

    /// The `read_size` bytes at the virtual address `vaddr`, where they lie
    /// within the addressable bytes of one section and within the dump.
    pub fn shared_slice_vaddr(&self, vaddr: u64, read_size: u64) -> (r: Option<&[u8]>)
        requires
            self.wf(),
        ensures
            r is Some <==> self.slice_v(vaddr, read_size) is Some,
            r matches Some(b) ==> Some(b@) == self.slice_v(vaddr, read_size),
            r matches Some(b) ==> b@.len() == read_size,
    {
        match self.mem_ranges.get_vaddr_range(vaddr) {
            None => None,
            Some(mr) => {
                proof {
                    crate::memory::lemma_v_owner(self.ranges().sections(), vaddr);
                }
                let offset: u64 = vaddr - mr.vaddr_start;
                let ext: u64 = if mr.size <= mr.vsize { mr.size } else { mr.vsize };
                if offset <= ext && read_size <= ext - offset {
                    self.buffer.get_shared_slice_from(mr.paddr_start + offset, Some(read_size))
                } else {
                    None
                }
            },
        }
    }

    /// The addressable bytes of the section of the virtual address `vaddr`,
    /// where the dump holds them all.
    pub fn shared_buffer_vaddr(&self, vaddr: u64) -> (r: Option<&[u8]>)
        requires
            self.wf(),
        ensures
            r is Some <==> self.section_of_v(vaddr) is Some && self.section_bytes(
                self.section_of_v(vaddr)->0,
            ) is Some,
            r matches Some(b) ==> Some(b@) == self.section_bytes(self.section_of_v(vaddr)->0),
            r matches Some(b) ==> b@.len() == extent(self.section_of_v(vaddr)->0),
    {
        match self.mem_ranges.get_vaddr_range(vaddr) {
            None => None,
            Some(mr) => {
                proof {
                    crate::memory::lemma_v_owner(self.ranges().sections(), vaddr);
                }
                let ext: u64 = if mr.size <= mr.vsize { mr.size } else { mr.vsize };
                self.buffer.get_shared_slice_from(mr.paddr_start, Some(ext))
            },
        }
    }

    /// The bytes of the dump from the offset `paddr` on.
    pub fn shared_buffer_paddr(&self, paddr: u64) -> (r: Option<&[u8]>)
        ensures
            r is Some <==> self.loaded() && paddr <= self.dump().len(),
            r matches Some(b) ==> b@ == self.dump().subrange(
                paddr as int,
                self.dump().len() as int,
            ),
    {
        self.buffer.get_shared_slice_from(paddr, None)
    }

    /// Whether `size` bytes at `pos` end before the last byte of `buffer`.
    pub fn can_read_buffer(&self, buffer: &[u8], pos: u64, size: u64) -> (b: bool)
        ensures
            b == (pos + size < buffer@.len()),
    {
        let len: u64 = buffer.len() as u64;
        pos < len && size < len - pos
    }

    /// Whether `size` bytes at the virtual address `vaddr` end before the last
    /// address of the section of `vaddr`.
    pub fn can_read_buffer_at(&self, vaddr: u64, size: u64) -> (b: bool)
        requires
            self.wf(),
        ensures
            b == match self.section_of_v(vaddr) {
                Some(s) => vaddr + size < s.vaddr_start + s.vsize,
                None => false,
            },
    {
        match self.mem_ranges.get_vaddr_range(vaddr) {
            None => false,
            Some(mr) => {
                proof {
                    crate::memory::lemma_v_owner(self.ranges().sections(), vaddr);
                }
                let off: u64 = vaddr - mr.vaddr_start;
                off < mr.vsize && size < mr.vsize - off
            },
        }
    }

    /// The address after the last of the section of `vaddr`.
    pub fn get_vaddr_end(&self, vaddr: u64) -> (r: Option<u64>)
        requires
            self.wf(),
        ensures
            r is Some <==> self.section_of_v(vaddr) is Some,
            r matches Some(end) ==> end == self.section_of_v(vaddr)->0.vaddr_start
                + self.section_of_v(vaddr)->0.vsize,
    {
        match self.mem_ranges.get_vaddr_range(vaddr) {
            None => None,
            Some(mr) => {
                proof {
                    crate::memory::lemma_v_owner(self.ranges().sections(), vaddr);
                }
                Some(mr.vaddr_start + mr.vsize)
            },
        }
    }

    /// The word at the start of `buffer`, in the byte order and word size of
    /// this address space.
    pub fn read_word_size_value(&self, buffer: &[u8]) -> (r: Option<ReadValue>)
        ensures
            r == spec_read_word(self.info().byte_order(), self.info().word_size(), buffer@),
    {
        let w: u8 = self.vmem_info.get_word_sz();
        let endian: ENDIAN = self.vmem_info.get_endian();
        if w as usize > buffer.len() {
            return None;
        }
        proof {
            reveal_with_fuel(le_value, 2);
            reveal_with_fuel(be_value, 2);
            if w == 1 {
                assert(head(buffer@, 1).drop_first().len() == 0);
                assert(head(buffer@, 1).drop_last().len() == 0);
            }
        }
        let value: u64 = match endian {
            ENDIAN::BIG => if w == 1 {
                buffer[0] as u64
            } else if w == 2 {
                be_read_u16(buffer) as u64
            } else if w == 4 {
                be_read_u32(buffer) as u64
            } else if w == 8 {
                be_read_u64(buffer)
            } else if w == 16 {
                low_half(be_read_u128(buffer))
            } else {
                return None;
            },
            ENDIAN::LITTLE => if w == 1 {
                buffer[0] as u64
            } else if w == 2 {
                le_read_u16(buffer) as u64
            } else if w == 4 {
                le_read_u32(buffer) as u64
            } else if w == 8 {
                le_read_u64(buffer)
            } else if w == 16 {
                low_half(le_read_u128(buffer))
            } else {
                return None;
            },
        };
        Some(ReadValue { consumed: w as u64, value })
    }

    /// The word at offset `pos` of `buffer`.
    pub fn read_word_size_value_at_pos(&self, buffer: &[u8], pos: u64) -> (r: Option<ReadValue>)
        ensures
            r == if pos < buffer@.len() {
                spec_read_word(
                    self.info().byte_order(),
                    self.info().word_size(),
                    buffer@.subrange(pos as int, buffer@.len() as int),
                )
            } else {
                None
            },
    {
        if pos < buffer.len() as u64 {
            let rest = vstd::slice::slice_subrange(buffer, pos as usize, buffer.len());
            return self.read_word_size_value(rest);
        }
        None
    }

    /// The word at the virtual address `vaddr`.
    pub fn read_word_size_value_at_vaddr(&self, vaddr: u64) -> (r: Option<ReadValue>)
        requires
            self.wf(),
        ensures
            r == self.read_word(vaddr),
    {
        let w: u8 = self.vmem_info.get_word_sz();
        match self.shared_slice_vaddr(vaddr, w as u64) {
            Some(bytes) => self.read_word_size_value(bytes),
            None => None,
        }
    }

    /// The byte order to read in: the one given, else that of the dump.
    fn pick_endian(&self, o_endian: Option<ENDIAN>) -> (e: ENDIAN)
        ensures
            e == self.order_for(o_endian),
    {
        match o_endian {
            Some(e) => e,
            None => self.vmem_info.get_endian(),
        }
    }

    /// The byte order that a typed read uses: the one given, else that of the
    /// dump.
    pub open spec fn order_for(&self, o_endian: Option<ENDIAN>) -> ENDIAN {
        match o_endian {
            Some(e) => e,
            None => self.info().byte_order(),
        }
    }

    /// The first eight bytes of `buffer` as a signed number.
    pub fn read_i64(&self, buffer: &[u8], o_endian: Option<ENDIAN>) -> (r: Option<i64>)
        ensures
            r is Some <==> buffer@.len() >= 8,
            r matches Some(x) ==> x == signed64(
                spec_value(self.order_for(o_endian), head(buffer@, 8)),
            ),
    {
        if buffer.len() < 8 {
            return None;
        }
        match self.pick_endian(o_endian) {
            ENDIAN::BIG => Some(be_read_i64(buffer)),
            ENDIAN::LITTLE => Some(le_read_i64(buffer)),
        }
    }

    /// The first eight bytes of `buffer` as an unsigned number.
    pub fn read_u64(&self, buffer: &[u8], o_endian: Option<ENDIAN>) -> (r: Option<u64>)
        ensures
            r is Some <==> buffer@.len() >= 8,
            r matches Some(x) ==> x == spec_value(self.order_for(o_endian), head(buffer@, 8)),
    {
        if buffer.len() < 8 {
            return None;
        }
        match self.pick_endian(o_endian) {
            ENDIAN::BIG => Some(be_read_u64(buffer)),
            ENDIAN::LITTLE => Some(le_read_u64(buffer)),
        }
    }

    /// The first four bytes of `buffer` as a signed number.
    pub fn read_i32(&self, buffer: &[u8], o_endian: Option<ENDIAN>) -> (r: Option<i32>)
        ensures
            r is Some <==> buffer@.len() >= 4,
            r matches Some(x) ==> x == signed32(
                spec_value(self.order_for(o_endian), head(buffer@, 4)),
            ),
    {
        if buffer.len() < 4 {
            return None;
        }
        match self.pick_endian(o_endian) {
            ENDIAN::BIG => Some(be_read_i32(buffer)),
            ENDIAN::LITTLE => Some(le_read_i32(buffer)),
        }
    }

    /// The first four bytes of `buffer` as an unsigned number.
    pub fn read_u32(&self, buffer: &[u8], o_endian: Option<ENDIAN>) -> (r: Option<u32>)
        ensures
            r is Some <==> buffer@.len() >= 4,
            r matches Some(x) ==> x == spec_value(self.order_for(o_endian), head(buffer@, 4)),
    {
        if buffer.len() < 4 {
            return None;
        }
        match self.pick_endian(o_endian) {
            ENDIAN::BIG => Some(be_read_u32(buffer)),
            ENDIAN::LITTLE => Some(le_read_u32(buffer)),
        }
    }

    /// The first two bytes of `buffer` as a signed number.
    pub fn read_i16(&self, buffer: &[u8], o_endian: Option<ENDIAN>) -> (r: Option<i16>)
        ensures
            r is Some <==> buffer@.len() >= 2,
            r matches Some(x) ==> x == signed16(
                spec_value(self.order_for(o_endian), head(buffer@, 2)),
            ),
    {
        if buffer.len() < 2 {
            return None;
        }
        let raw: u16 = match self.pick_endian(o_endian) {
            ENDIAN::BIG => be_read_u16(buffer),
            ENDIAN::LITTLE => le_read_u16(buffer),
        };
        if raw >= 0x8000 {
            Some((raw - 0x8000) as i16 - 0x7fff - 1)
        } else {
            Some(raw as i16)
        }
    }

    /// The first two bytes of `buffer` as an unsigned number.
    pub fn read_u16(&self, buffer: &[u8], o_endian: Option<ENDIAN>) -> (r: Option<u16>)
        ensures
            r is Some <==> buffer@.len() >= 2,
            r matches Some(x) ==> x == spec_value(self.order_for(o_endian), head(buffer@, 2)),
    {
        if buffer.len() < 2 {
            return None;
        }
        match self.pick_endian(o_endian) {
            ENDIAN::BIG => Some(be_read_u16(buffer)),
            ENDIAN::LITTLE => Some(le_read_u16(buffer)),
        }
    }

    /// The first byte of `buffer`; the byte order has no part in it.
    pub fn read_u8(&self, buffer: &[u8], o_endian: Option<ENDIAN>) -> (r: Option<u8>)
        ensures
            r is Some <==> buffer@.len() >= 1,
            r matches Some(x) ==> x == buffer@[0],
    {
        if buffer.len() < 1 {
            return None;
        }
        Some(buffer[0])
    }

    /// The first byte of `buffer` as a signed number; the byte order has no
    /// part in it.
    pub fn read_i8(&self, buffer: &[u8], o_endian: Option<ENDIAN>) -> (r: Option<i8>)
        ensures
            r is Some <==> buffer@.len() >= 1,
            r matches Some(x) ==> x == signed8(buffer@[0] as nat),
    {
        if buffer.len() < 1 {
            return None;
        }
        let raw: u8 = buffer[0];
        if raw >= 0x80 {
            Some((raw - 0x80) as i8 - 0x7f - 1)
        } else {
            Some(raw as i8)
        }
    }

    /// The byte at the virtual address `vaddr`.
    pub fn read_u8_at_vaddr(&self, vaddr: u64) -> (r: Option<u8>)
        requires
            self.wf(),
        ensures
            r is Some <==> self.slice_v(vaddr, 1) is Some,
            r matches Some(x) ==> x == self.slice_v(vaddr, 1)->0[0],
    {
        match self.shared_slice_vaddr(vaddr, 1) {
            Some(bytes) => self.read_u8(bytes, None),
            None => None,
        }
    }

    /// The two bytes at the virtual address `vaddr` as a number in the byte
    /// order of the dump.
    pub fn read_u16_at_vaddr(&self, vaddr: u64) -> (r: Option<u16>)
        requires
            self.wf(),
        ensures
            r is Some <==> self.slice_v(vaddr, 2) is Some,
            r matches Some(x) ==> x == spec_value(
                self.info().byte_order(),
                self.slice_v(vaddr, 2)->0,
            ),
    {
        match self.shared_slice_vaddr(vaddr, 2) {
            Some(bytes) => {
                assert(head(bytes@, 2) =~= bytes@);
                self.read_u16(bytes, None)
            },
            None => None,
        }
    }

    /// The four bytes at the virtual address `vaddr` as a number in the byte
    /// order of the dump.
    pub fn read_u32_at_vaddr(&self, vaddr: u64) -> (r: Option<u32>)
        requires
            self.wf(),
        ensures
            r is Some <==> self.slice_v(vaddr, 4) is Some,
            r matches Some(x) ==> x == spec_value(
                self.info().byte_order(),
                self.slice_v(vaddr, 4)->0,
            ),
    {
        match self.shared_slice_vaddr(vaddr, 4) {
            Some(bytes) => {
                assert(head(bytes@, 4) =~= bytes@);
                self.read_u32(bytes, None)
            },
            None => None,
        }
    }

    /// The eight bytes at the virtual address `vaddr` as a number in the byte
    /// order of the dump.
    pub fn read_u64_at_vaddr(&self, vaddr: u64) -> (r: Option<u64>)
        requires
            self.wf(),
        ensures
            r is Some <==> self.slice_v(vaddr, 8) is Some,
            r matches Some(x) ==> x == spec_value(
                self.info().byte_order(),
                self.slice_v(vaddr, 8)->0,
            ),
    {
        match self.shared_slice_vaddr(vaddr, 8) {
            Some(bytes) => {
                assert(head(bytes@, 8) =~= bytes@);
                self.read_u64(bytes, None)
            },
            None => None,
        }
    }
}

/// Translation follows the section: where no two sections claim a common
/// virtual address, the address `k` bytes into the section of `v` goes to the
/// dump offset `k` bytes into that section, for every `k` within the
/// section's addressable bytes.
pub proof fn lemma_translation_round_trip(di: DataInterface, v: u64, k: u64)
    requires
        di.wf(),
        di.ranges().disjoint_v(),
        di.section_of_v(v) is Some,
        k < extent(di.section_of_v(v)->0),
    ensures
        di.v_to_p((di.section_of_v(v)->0.vaddr_start + k) as u64) == Some(
            (di.section_of_v(v)->0.paddr_start + k) as u64,
        ),
        di.section_of_v((di.section_of_v(v)->0.vaddr_start + k) as u64) == di.section_of_v(v),
{
    let secs = di.ranges().sections();
    crate::memory::lemma_v_owner(secs, v);
    let i = crate::memory::v_owner(secs, v)->0;
    let s = secs[i];
    let a = (s.vaddr_start + k) as u64;
    assert(s.fits());
    assert(s.claims_vaddr(a));
    di.ranges().lemma_disjoint_owner(i, a);
}

/// The two translations agree: for an address within the addressable bytes
/// of its section, on a page that the section's own range owns, the page
/// index gives the dump offset that the section gives.
pub proof fn lemma_translations_agree(di: DataInterface, v: u64)
    requires
        di.wf(),
        di.v_to_p(v) is Some,
        range_of_section(di.info().range_of(v), di.section_of_v(v)->0),
    ensures
        di.is_mapped_v(v),
        di.info().translate(v) == di.v_to_p(v)->0,
{
    let s = di.section_of_v(v)->0;
    crate::memory::lemma_v_owner(di.ranges().sections(), v);
    assert(di.ranges().section_of_v(v) is Some);
    assert(s.fits());
}

/// The page of every address that has a section is indexed: such an address
/// is a mapped one, and an aligned one is an aligned pointer.
pub proof fn lemma_sections_are_mapped(di: DataInterface, v: u64)
    requires
        di.wf(),
        di.section_of_v(v) is Some,
    ensures
        di.is_mapped_v(v),
        is_aligned(v, di.info().align()) ==> di.is_aligned_pointer(v),
{
    assert(di.ranges().section_of_v(v) is Some);
}

/// Where the page index holds, from number `base` on, the range of each stored
/// interval of the virtual map, the page of every address that has a section
/// is indexed.
pub proof fn lemma_section_indexed(mrs: MemRanges, info: VMemInfo, base: int, v: u64)
    requires
        mrs.wf(),
        info.wf(),
        0 <= base,
        info.ranges().len() == base + mrs.v_intervals().len(),
        forall|i: int|
            0 <= i < mrs.v_intervals().len() ==> range_of_section(
                #[trigger] info.ranges()[base + i],
                mrs.sections()[mrs.v_intervals()[i].2 as int],
            ),
        mrs.section_of_v(v) is Some,
    ensures
        info.is_mapped(v),
{
    let e = mrs.v_intervals();
    crate::memory::lemma_v_owner(mrs.sections(), v);
    assert(crate::memory::lookup(e, v) == crate::memory::v_owner(mrs.sections(), v));
    let i = choose|i: int| crate::memory::interval_holds(e, i, v);
    let s = mrs.sections()[e[i].2 as int];
    let r = info.ranges()[base + i];
    assert(range_of_section(r, s));
    assert(s.claims_vaddr(v));
    lemma_page_mask(v);
    lemma_page_mask(r.vstart);
    let p = page_of(v);
    assert(range_has_page(r, p));
    lemma_page_owner(info.ranges(), p);
    assert(page_entry(info.pages(), p) == page_owner(info.ranges(), p));
}

} // verus!
