//! Sections of a dump and the interval maps that find the section of an
//! address, virtual or physical.

use crate::buffer::DataBuffer;
use crate::hex::{hex8, push_hex8, push_text, string_of};
use crate::radare::{RadareMemoryInfo, RadareMemoryInfos};
use rangemap::RangeMap;
use vstd::prelude::*;

verus! {

/// Where a section's bytes are kept.
#[derive(Debug, Clone, Copy, PartialEq, Eq, Structural)]
pub enum BackendType {
    File,
    SliceBuffer,
    FullBuffer,
}

/// One contiguous mapping: `size` bytes at `paddr_start` of the dump stand for
/// `vsize` bytes at `vaddr_start` of the process.
#[derive(Debug)]
pub struct MemRange {
    pub vaddr_start: u64,
    pub paddr_start: u64,
    pub vsize: u64,
    pub size: u64,
    pub data: Option<DataBuffer>,
    pub perm: String,
    pub name: String,
    pub backend: Option<BackendType>,
}

/// The length of an interval of `len` addresses in an interval map, where an
/// empty section still claims its first address.
pub open spec fn span(len: u64) -> int {
    if len == 0 {
        1
    } else {
        len as int
    }
}

impl MemRange {
    /// Whether `addr` is one of the section's virtual addresses.
    pub open spec fn holds_vaddr(&self, addr: u64) -> bool {
        self.vaddr_start <= addr < self.vaddr_start + self.vsize
    }

    /// Whether `addr` is one of the section's offsets in the dump.
    pub open spec fn holds_paddr(&self, addr: u64) -> bool {
        self.paddr_start <= addr < self.paddr_start + self.size
    }

    /// Whether the virtual interval map gives `addr` to this section.
    pub open spec fn claims_vaddr(&self, addr: u64) -> bool {
        self.vaddr_start <= addr < self.vaddr_start + span(self.vsize)
    }

    /// Whether the physical interval map gives `addr` to this section.
    pub open spec fn claims_paddr(&self, addr: u64) -> bool {
        self.paddr_start <= addr < self.paddr_start + span(self.size)
    }

    /// Whether both intervals of the section end within the 64-bit address
    /// space.
    pub open spec fn fits(&self) -> bool {
        &&& self.vaddr_start + span(self.vsize) <= u64::MAX
        &&& self.paddr_start + span(self.size) <= u64::MAX
    }

    /// The section that a listing entry describes: no bytes attached, no
    /// backend chosen.
    pub fn from_radare_info(radare_info: &RadareMemoryInfo) -> (mr: Self)
        ensures
            mr.vaddr_start == radare_info.vaddr,
            mr.paddr_start == radare_info.paddr,
            mr.vsize == radare_info.vsize,
            mr.size == radare_info.size,
            mr.data is None,
            mr.perm == radare_info.perm,
            mr.name == radare_info.name,
            mr.backend is None,
    {
        MemRange {
            vaddr_start: radare_info.vaddr,
            paddr_start: radare_info.paddr,
            vsize: radare_info.vsize,
            size: radare_info.size,
            data: None,
            perm: radare_info.perm.clone(),
            name: radare_info.name.clone(),
            backend: None,
        }
    }

    /// A section made of the given parts.
    pub fn new(
        perm: String,
        name: String,
        vaddr_start: u64,
        paddr_start: u64,
        vsize: u64,
        size: u64,
        data: Option<DataBuffer>,
        backend: Option<BackendType>,
    ) -> (mr: Self)
        ensures
            mr.vaddr_start == vaddr_start,
            mr.paddr_start == paddr_start,
            mr.vsize == vsize,
            mr.size == size,
            mr.data == data,
            mr.perm == perm,
            mr.name == name,
            mr.backend == backend,
    {
        MemRange { vaddr_start, paddr_start, vsize, size, data, perm, name, backend }
    }

    /// The section on one line: its name, its permissions, and its place in
    /// the dump and in memory as hexadecimal numbers.
    pub open spec fn text(&self) -> Seq<char> {
        self.name@ + " perms="@ + self.perm@ + " paddr="@ + hex8(self.paddr_start) + " size="@
            + hex8(self.size) + " vaddr="@ + hex8(self.vaddr_start) + " vsize="@ + hex8(
            self.vsize,
        )
    }

    /// The section on one line.
    pub fn to_string(&self) -> (line: String)
        ensures
            line@ == self.text(),
    {
        let mut out: Vec<char> = Vec::new();
        push_text(&mut out, self.name.as_str());
        assert(out@ =~= self.name@);
        push_text(&mut out, " perms=");
        push_text(&mut out, self.perm.as_str());
        push_text(&mut out, " paddr=");
        push_hex8(&mut out, self.paddr_start);
        push_text(&mut out, " size=");
        push_hex8(&mut out, self.size);
        push_text(&mut out, " vaddr=");
        push_hex8(&mut out, self.vaddr_start);
        push_text(&mut out, " vsize=");
        push_hex8(&mut out, self.vsize);
        string_of(&out)
    }

    /// Whether the section may be written: its permissions hold a `w`.
    pub open spec fn writable(&self) -> bool {
        self.perm@.contains('w')
    }

    /// Tests `writable`.
    pub fn is_writable(&self) -> (b: bool)
        ensures
            b == self.writable(),
    {
        let perm: &str = self.perm.as_str();
        let n: usize = perm.unicode_len();
        let mut i: usize = 0;
        while i < n
            invariant
                n == perm@.len(),
                perm@ == self.perm@,
                i <= n,
                forall|j: int| 0 <= j < i ==> perm@[j] != 'w',
            decreases n - i,
        {
            if perm.get_char(i) == 'w' {
                return true;
            }
            i += 1;
        }
        false
    }

    /// Tests `fits`.
    pub fn check_fits(&self) -> (b: bool)
        ensures
            b == self.fits(),
    {
        let vspan: u64 = if self.vsize == 0 { 1 } else { self.vsize };
        let pspan: u64 = if self.size == 0 { 1 } else { self.size };
        vspan <= u64::MAX - self.vaddr_start && pspan <= u64::MAX - self.paddr_start
    }
}

/// Address arithmetic of one mapping.
pub trait Memory {
    fn vaddr_in_range(&self, vaddr: u64) -> bool;

    fn paddr_in_range(&self, paddr: u64) -> bool;

    fn get_size(&self) -> u64;

    fn get_vsize(&self) -> u64;

    fn get_vbase_from_vaddr(&self, vaddr: u64) -> Option<u64>;

    fn get_vbase_from_paddr(&self, paddr: u64) -> Option<u64>;

    fn get_vaddr_from_paddr(&self, paddr: u64) -> Option<u64>;

    fn get_paddr_from_vaddr(&self, vaddr: u64) -> Option<u64>;
}

impl Memory for MemRange {
    fn vaddr_in_range(&self, vaddr: u64) -> (b: bool)
        ensures
            b == self.holds_vaddr(vaddr),
    {
        self.vaddr_start <= vaddr && vaddr - self.vaddr_start < self.vsize
    }

    fn paddr_in_range(&self, paddr: u64) -> (b: bool)
        ensures
            b == self.holds_paddr(paddr),
    {
        self.paddr_start <= paddr && paddr - self.paddr_start < self.size
    }

    fn get_size(&self) -> (n: u64)
        ensures
            n == self.size,
    {
        self.size
    }

    fn get_vsize(&self) -> (n: u64)
        ensures
            n == self.vsize,
    {
        self.vsize
    }

    fn get_vbase_from_vaddr(&self, vaddr: u64) -> (r: Option<u64>)
        ensures
            r == if self.holds_vaddr(vaddr) {
                Some(self.vaddr_start)
            } else {
                None
            },
    {
        if !self.vaddr_in_range(vaddr) {
            return None;
        }
        Some(self.vaddr_start)
    }

    fn get_vbase_from_paddr(&self, paddr: u64) -> (r: Option<u64>)
        ensures
            r == if self.holds_paddr(paddr) {
                Some(self.vaddr_start)
            } else {
                None
            },
    {
        if !self.paddr_in_range(paddr) {
            return None;
        }
        Some(self.vaddr_start)
    }

    /// The virtual address of the dump offset `paddr`: as far into the virtual
    /// interval as `paddr` is into the physical one. Nothing where `paddr` is
    /// outside the section or the address would pass the end of the address
    /// space.
    fn get_vaddr_from_paddr(&self, paddr: u64) -> (r: Option<u64>)
        ensures
            r is Some <==> self.holds_paddr(paddr) && self.vaddr_start + (paddr
                - self.paddr_start) <= u64::MAX,
            r matches Some(v) ==> v == self.vaddr_start + (paddr - self.paddr_start),
    {
        if !self.paddr_in_range(paddr) {
            return None;
        }
        self.vaddr_start.checked_add(paddr - self.paddr_start)
    }

    /// The dump offset of the virtual address `vaddr`: as far into the physical
    /// interval as `vaddr` is into the virtual one. Nothing where `vaddr` is
    /// outside the section or the offset would pass the end of the address
    /// space.
    fn get_paddr_from_vaddr(&self, vaddr: u64) -> (r: Option<u64>)
        ensures
            r is Some <==> self.holds_vaddr(vaddr) && self.paddr_start + (vaddr
                - self.vaddr_start) <= u64::MAX,
            r matches Some(p) ==> p == self.paddr_start + (vaddr - self.vaddr_start),
    {
        if !self.vaddr_in_range(vaddr) {
            return None;
        }
        self.paddr_start.checked_add(vaddr - self.vaddr_start)
    }
}


/// `rangemap::RangeMap`: an interval map, opaque but for what the functions
/// below say of the intervals it stores.
#[verifier::external_type_specification]
#[verifier::external_body]
#[verifier::reject_recursive_types(K)]
#[verifier::reject_recursive_types(V)]
pub struct ExRangeMap<K, V>(RangeMap<K, V>);

/// One stored interval of an interval map: its first address, the address
/// after its last, and the number of the section it belongs to.
pub type Interval = (u64, u64, usize);

/// The intervals that an interval map stores, in ascending order.
pub uninterp spec fn intervals(m: RangeMap<u64, usize>) -> Seq<Interval>;

/// Whether interval `i` of `e` holds the address `k`.
pub open spec fn interval_holds(e: Seq<Interval>, i: int, k: u64) -> bool {
    0 <= i < e.len() && e[i].0 <= k < e[i].1
}

/// The section number that the intervals `e` give to the address `k`.
pub open spec fn lookup(e: Seq<Interval>, k: u64) -> Option<int> {
    if exists|i: int| interval_holds(e, i, k) {
        Some(e[choose|i: int| interval_holds(e, i, k)].2 as int)
    } else {
        None
    }
}

/// The shape in which an interval map keeps its intervals: none is empty, each
/// ends before the next begins, and two that touch differ in their value.
pub open spec fn canonical(e: Seq<Interval>) -> bool {
    &&& forall|i: int| 0 <= i < e.len() ==> (#[trigger] e[i]).0 < e[i].1
    &&& forall|i: int, j: int| 0 <= i < j < e.len() ==> (#[trigger] e[i]).1 <= (#[trigger] e[j]).0
    &&& forall|i: int|
        0 <= i < e.len() - 1 && (#[trigger] e[i]).1 == e[i + 1].0 ==> e[i].2 != e[i + 1].2
}

/// `rangemap::RangeMap::new`: a map that stores no interval.
#[verifier::external_body]
fn intervals_new() -> (m: RangeMap<u64, usize>)
    ensures
        intervals(m) == Seq::<Interval>::empty(),
{
    RangeMap::new()
}

/// `rangemap::RangeMap::insert`: afterwards every address of `start..end` has
/// the value `value`, every other address has what it had, and the stored
/// intervals are in canonical shape again. The outside function panics on an
/// empty range.
#[verifier::external_body]
fn intervals_insert(m: &mut RangeMap<u64, usize>, start: u64, end: u64, value: usize)
    requires
        start < end,
    ensures
        canonical(intervals(*final(m))),
        forall|k: u64| #[trigger]
            lookup(intervals(*final(m)), k) == if start <= k < end {
                Some(value as int)
            } else {
                lookup(intervals(*old(m)), k)
            },
{
    m.insert(start..end, value)
}

/// `rangemap::RangeMap::get`: the value of the stored interval that holds
/// `key`, if one does.
#[verifier::external_body]
fn intervals_get(m: &RangeMap<u64, usize>, key: u64) -> (r: Option<usize>)
    ensures
        r is Some <==> lookup(intervals(*m), key) is Some,
        r matches Some(i) ==> lookup(intervals(*m), key) == Some(i as int),
{
    m.get(&key).copied()
}

/// `rangemap::RangeMap::contains_key`: whether a stored interval holds `key`.
#[verifier::external_body]
fn intervals_contains_key(m: &RangeMap<u64, usize>, key: u64) -> (r: bool)
    ensures
        r == lookup(intervals(*m), key).is_some(),
{
    m.contains_key(&key)
}

/// `rangemap::RangeMap::len`: the number of stored intervals.
#[verifier::external_body]
fn intervals_len(m: &RangeMap<u64, usize>) -> (r: usize)
    ensures
        r == intervals(*m).len(),
{
    m.len()
}

/// `rangemap::RangeMap::iter`: the stored intervals in ascending order, each
/// with its value; they are in canonical shape.
#[verifier::external_body]
fn intervals_list(m: &RangeMap<u64, usize>) -> (r: Vec<Interval>)
    ensures
        r@ == intervals(*m),
        canonical(r@),
{
    m.iter().map(|(range, value)| (range.start, range.end, *value)).collect()
}


/// The number of the last section of `secs` that claims the virtual address
/// `k`: a section entered later takes an address from one entered before.
pub open spec fn v_owner(secs: Seq<MemRange>, k: u64) -> Option<int>
    decreases secs.len(),
{
    if secs.len() == 0 {
        None
    } else if secs.last().claims_vaddr(k) {
        Some(secs.len() - 1)
    } else {
        v_owner(secs.drop_last(), k)
    }
}

/// The number of the last section of `secs` that claims the dump offset `k`.
pub open spec fn p_owner(secs: Seq<MemRange>, k: u64) -> Option<int>
    decreases secs.len(),
{
    if secs.len() == 0 {
        None
    } else if secs.last().claims_paddr(k) {
        Some(secs.len() - 1)
    } else {
        p_owner(secs.drop_last(), k)
    }
}

/// An owner is a section of the list, and claims the address.
pub proof fn lemma_v_owner(secs: Seq<MemRange>, k: u64)
    ensures
        v_owner(secs, k) matches Some(i) ==> 0 <= i < secs.len() && secs[i].claims_vaddr(k),
        v_owner(secs, k) is None ==> forall|j: int|
            0 <= j < secs.len() ==> !(#[trigger] secs[j]).claims_vaddr(k),
    decreases secs.len(),
{
    if secs.len() > 0 && !secs.last().claims_vaddr(k) {
        lemma_v_owner(secs.drop_last(), k);
        if let Some(i) = v_owner(secs, k) {
            assert(secs[i] == secs.drop_last()[i]);
        }
        if v_owner(secs, k) is None {
            assert forall|j: int| 0 <= j < secs.len() implies !(#[trigger] secs[j]).claims_vaddr(
                k,
            ) by {
                if j < secs.len() - 1 {
                    assert(secs[j] == secs.drop_last()[j]);
                }
            }
        }
    }
}

/// An owner is a section of the list, and claims the offset.
pub proof fn lemma_p_owner(secs: Seq<MemRange>, k: u64)
    ensures
        p_owner(secs, k) matches Some(i) ==> 0 <= i < secs.len() && secs[i].claims_paddr(k),
        p_owner(secs, k) is None ==> forall|j: int|
            0 <= j < secs.len() ==> !(#[trigger] secs[j]).claims_paddr(k),
    decreases secs.len(),
{
    if secs.len() > 0 && !secs.last().claims_paddr(k) {
        lemma_p_owner(secs.drop_last(), k);
        if let Some(i) = p_owner(secs, k) {
            assert(secs[i] == secs.drop_last()[i]);
        }
        if p_owner(secs, k) is None {
            assert forall|j: int| 0 <= j < secs.len() implies !(#[trigger] secs[j]).claims_paddr(
                k,
            ) by {
                if j < secs.len() - 1 {
                    assert(secs[j] == secs.drop_last()[j]);
                }
            }
        }
    }
}

/// Whether a section holds what a listing entry says.
pub open spec fn describes(info: RadareMemoryInfo, mr: MemRange) -> bool {
    &&& mr.vaddr_start == info.vaddr
    &&& mr.paddr_start == info.paddr
    &&& mr.vsize == info.vsize
    &&& mr.size == info.size
    &&& mr.data is None
    &&& mr.perm == info.perm
    &&& mr.name == info.name
    &&& mr.backend is None
}

/// Whether the section that a listing entry describes ends within the 64-bit
/// address space, in the dump and in virtual memory.
pub open spec fn info_fits(info: RadareMemoryInfo) -> bool {
    &&& info.vaddr + span(info.vsize) <= u64::MAX
    &&& info.paddr + span(info.size) <= u64::MAX
}

/// The sections that the references lead to.
pub open spec fn derefs(r: Seq<&MemRange>) -> Seq<MemRange> {
    Seq::new(r.len(), |i: int| *r[i])
}

/// The writable sections of `s`, in the order of `s`.
pub open spec fn keep_writable(s: Seq<MemRange>) -> Seq<MemRange>
    decreases s.len(),
{
    if s.len() == 0 {
        Seq::empty()
    } else if s.last().writable() {
        keep_writable(s.drop_last()).push(s.last())
    } else {
        keep_writable(s.drop_last())
    }
}

/// Leaving out the sections that may not be written keeps the others in
/// their order: where the sections begin at ascending addresses, so do the
/// writable ones, and each begins at or before the last of all.
pub proof fn lemma_keep_writable_ascends(s: Seq<MemRange>)
    requires
        forall|i: int, j: int| 0 <= i < j < s.len() ==> s[i].vaddr_start < s[j].vaddr_start,
    ensures
        forall|i: int, j: int|
            0 <= i < j < keep_writable(s).len() ==> keep_writable(s)[i].vaddr_start
                < keep_writable(s)[j].vaddr_start,
        forall|i: int|
            0 <= i < keep_writable(s).len() ==> s.len() > 0 && (#[trigger] keep_writable(
                s,
            )[i]).vaddr_start <= s.last().vaddr_start,
    decreases s.len(),
{
    if s.len() > 0 {
        let front = s.drop_last();
        assert(forall|i: int| 0 <= i < front.len() ==> front[i] == s[i]);
        lemma_keep_writable_ascends(front);
        let kept = keep_writable(front);
        assert forall|i: int| 0 <= i < kept.len() implies (#[trigger] kept[i]).vaddr_start
            < s.last().vaddr_start by {
            assert(kept[i].vaddr_start <= front.last().vaddr_start);
            assert(front.last() == s[s.len() - 2]);
        }
    }
}

/// Tells whether every section of the listing ends within the 64-bit
/// address space, in the dump and in virtual memory.
pub fn listing_fits(radare: &RadareMemoryInfos) -> (b: bool)
    ensures
        b == forall|i: int| 0 <= i < radare.items@.len() ==> info_fits(#[trigger] radare.items@[i]),
{
    let mut i: usize = 0;
    while i < radare.items.len()
        invariant
            i <= radare.items@.len(),
            forall|j: int| 0 <= j < i ==> info_fits(#[trigger] radare.items@[j]),
        decreases radare.items@.len() - i,
    {
        let item = &radare.items[i];
        let vspan: u64 = if item.vsize == 0 { 1 } else { item.vsize };
        let pspan: u64 = if item.size == 0 { 1 } else { item.size };
        if vspan > u64::MAX - item.vaddr || pspan > u64::MAX - item.paddr {
            return false;
        }
        i += 1;
    }
    true
}

/// The sections of a dump, with one interval map over their virtual addresses
/// and one over their offsets in the dump.
pub struct MemRanges {
    sections: Vec<MemRange>,
    vmem_ranges: RangeMap<u64, usize>,
    pmem_ranges: RangeMap<u64, usize>,
}

impl MemRanges {
    /// The sections in the order in which they were entered.
    pub closed spec fn sections(&self) -> Seq<MemRange> {
        self.sections@
    }

    /// The stored intervals of the virtual map.
    pub closed spec fn v_intervals(&self) -> Seq<Interval> {
        intervals(self.vmem_ranges)
    }

    /// The stored intervals of the physical map.
    pub closed spec fn p_intervals(&self) -> Seq<Interval> {
        intervals(self.pmem_ranges)
    }

    /// Each map gives an address to the last section entered that claims it,
    /// and stores its intervals in canonical shape.
    pub open spec fn wf(&self) -> bool {
        &&& canonical(self.v_intervals())
        &&& canonical(self.p_intervals())
        &&& forall|k: u64| #[trigger]
            lookup(self.v_intervals(), k) == v_owner(self.sections(), k)
        &&& forall|k: u64| #[trigger]
            lookup(self.p_intervals(), k) == p_owner(self.sections(), k)
        &&& forall|i: int| 0 <= i < self.sections().len() ==> (#[trigger] self.sections()[i]).fits()
    }

    /// The section of the virtual address `v`.
    pub open spec fn section_of_v(&self, v: u64) -> Option<MemRange> {
        match v_owner(self.sections(), v) {
            Some(i) => Some(self.sections()[i]),
            None => None,
        }
    }

    /// The section of the dump offset `p`.
    pub open spec fn section_of_p(&self, p: u64) -> Option<MemRange> {
        match p_owner(self.sections(), p) {
            Some(i) => Some(self.sections()[i]),
            None => None,
        }
    }

    /// Whether no two sections claim a common virtual address.
    pub open spec fn disjoint_v(&self) -> bool {
        forall|i: int, j: int, k: u64|
            #![trigger self.sections()[i].claims_vaddr(k), self.sections()[j].claims_vaddr(k)]
            0 <= i < j < self.sections().len() && self.sections()[i].claims_vaddr(k)
                ==> !self.sections()[j].claims_vaddr(k)
    }

    /// Where no two sections claim a common virtual address, every address
    /// that a section claims has that section.
    pub proof fn lemma_disjoint_owner(&self, i: int, k: u64)
        requires
            self.disjoint_v(),
            0 <= i < self.sections().len(),
            self.sections()[i].claims_vaddr(k),
        ensures
            v_owner(self.sections(), k) == Some(i),
            self.section_of_v(k) == Some(self.sections()[i]),
    {
        lemma_v_owner(self.sections(), k);
        let j = v_owner(self.sections(), k)->0;
        if j < i {
            assert(self.sections()[j].claims_vaddr(k) && self.sections()[i].claims_vaddr(k));
        } else if i < j {
            assert(self.sections()[i].claims_vaddr(k) && self.sections()[j].claims_vaddr(k));
        }
    }

    /// The number of intervals that the virtual map stores.
    pub fn count(&self) -> (n: u64)
        ensures
            n == self.v_intervals().len(),
    {
        intervals_len(&self.vmem_ranges) as u64
    }

    /// No section.
    pub fn new() -> (mrs: Self)
        ensures
            mrs.wf(),
            mrs.sections() == Seq::<MemRange>::empty(),
    {
        let mrs = MemRanges {
            sections: Vec::new(),
            vmem_ranges: intervals_new(),
            pmem_ranges: intervals_new(),
        };
        proof {
            let e = Seq::<Interval>::empty();
            assert forall|k: u64| #[trigger] lookup(e, k) == v_owner(mrs.sections(), k) by {
                assert(forall|i: int| !interval_holds(e, i, k));
            }
            assert forall|k: u64| #[trigger] lookup(e, k) == p_owner(mrs.sections(), k) by {
                assert(forall|i: int| !interval_holds(e, i, k));
            }
        }
        mrs
    }

    /// Enters a section. It takes every address it claims, virtual and in the
    /// dump, from the sections entered before; an empty section claims its
    /// first address.
    pub fn add_mem_range(&mut self, mr: MemRange)
        requires
            old(self).wf(),
            mr.fits(),
        ensures
            final(self).wf(),
            final(self).sections() == old(self).sections().push(mr),
    {
        let vsz: u64 = if mr.vsize == 0 { 1 } else { mr.vsize };
        let sz: u64 = if mr.size == 0 { 1 } else { mr.size };
        let idx: usize = self.sections.len();
        let vstart: u64 = mr.vaddr_start;
        let pstart: u64 = mr.paddr_start;
        intervals_insert(&mut self.vmem_ranges, vstart, vstart + vsz, idx);
        intervals_insert(&mut self.pmem_ranges, pstart, pstart + sz, idx);
        self.sections.push(mr);
        proof {
            let secs = self.sections();
            assert(secs.drop_last() =~= old(self).sections());
            assert forall|i: int| 0 <= i < secs.len() implies (#[trigger] secs[i]).fits() by {
                if i < secs.len() - 1 {
                    assert(secs[i] == old(self).sections()[i]);
                }
            }
        }
    }

    /// The section of the dump offset `paddr`, if it has one.
    pub fn get_paddr_range(&self, paddr: u64) -> (r: Option<&MemRange>)
        requires
            self.wf(),
        ensures
            r is Some <==> self.section_of_p(paddr) is Some,
            r matches Some(mr) ==> Some(*mr) == self.section_of_p(paddr),
    {
        proof {
            lemma_p_owner(self.sections(), paddr);
        }
        match intervals_get(&self.pmem_ranges, paddr) {
            Some(i) => Some(&self.sections[i]),
            None => None,
        }
    }

    /// The section of the virtual address `vaddr`, if it has one.
    pub fn get_vaddr_range(&self, vaddr: u64) -> (r: Option<&MemRange>)
        requires
            self.wf(),
        ensures
            r is Some <==> self.section_of_v(vaddr) is Some,
            r matches Some(mr) ==> Some(*mr) == self.section_of_v(vaddr),
    {
        proof {
            lemma_v_owner(self.sections(), vaddr);
        }
        match intervals_get(&self.vmem_ranges, vaddr) {
            Some(i) => Some(&self.sections[i]),
            None => None,
        }
    }

    /// The name of the section of the virtual address `vaddr`.
    pub fn get_vaddr_section_name(&self, vaddr: u64) -> (r: Option<String>)
        requires
            self.wf(),
        ensures
            r is Some <==> self.section_of_v(vaddr) is Some,
            r matches Some(name) ==> name == self.section_of_v(vaddr)->0.name,
    {
        match self.get_vaddr_range(vaddr) {
            Some(mr) => Some(mr.name.clone()),
            None => None,
        }
    }

    /// The name of the section of the dump offset `paddr`.
    pub fn get_paddr_section_name(&self, paddr: u64) -> (r: Option<String>)
        requires
            self.wf(),
        ensures
            r is Some <==> self.section_of_p(paddr) is Some,
            r matches Some(name) ==> name == self.section_of_p(paddr)->0.name,
    {
        match self.get_paddr_range(paddr) {
            Some(mr) => Some(mr.name.clone()),
            None => None,
        }
    }

    /// Whether the dump offset `paddr` has a section.
    pub fn has_paddr(&self, paddr: u64) -> (b: bool)
        requires
            self.wf(),
        ensures
            b == self.section_of_p(paddr).is_some(),
    {
        intervals_contains_key(&self.pmem_ranges, paddr)
    }

    /// Whether the virtual address `vaddr` has a section.
    pub fn has_vaddr(&self, vaddr: u64) -> (b: bool)
        requires
            self.wf(),
        ensures
            b == self.section_of_v(vaddr).is_some(),
    {
        intervals_contains_key(&self.vmem_ranges, vaddr)
    }

    /// The sections of a listing, entered in the listing's order.
    pub fn from_radare_infos(radare: &RadareMemoryInfos) -> (mrs: MemRanges)
        requires
            forall|i: int| 0 <= i < radare.items@.len() ==> info_fits(#[trigger] radare.items@[i]),
        ensures
            mrs.wf(),
            mrs.sections().len() == radare.items@.len(),
            forall|i: int|
                0 <= i < radare.items@.len() ==> describes(
                    radare.items@[i],
                    #[trigger] mrs.sections()[i],
                ),
    {
        let mut mrs = MemRanges::new();
        let mut i: usize = 0;
        while i < radare.items.len()
            invariant
                i <= radare.items@.len(),
                mrs.wf(),
                mrs.sections().len() == i,
                forall|j: int| 0 <= j < radare.items@.len() ==> info_fits(#[trigger] radare.items@[j]),
                forall|j: int|
                    0 <= j < i ==> describes(radare.items@[j], #[trigger] mrs.sections()[j]),
            decreases radare.items@.len() - i,
        {
            let mr = MemRange::from_radare_info(&radare.items[i]);
            mrs.add_mem_range(mr);
            i += 1;
        }
        mrs
    }

    /// The section of each stored interval of the virtual map, in ascending
    /// order of the intervals.
    pub open spec fn interval_sections(&self) -> Seq<MemRange> {
        Seq::new(
            self.v_intervals().len(),
            |i: int| self.sections()[self.v_intervals()[i].2 as int],
        )
    }

    /// The writable ones among `interval_sections`, in the same order: the
    /// regions that the scanners go through.
    pub open spec fn writable_sections(&self) -> Seq<MemRange> {
        keep_writable(self.interval_sections())
    }

    /// The regions to scan: the section of each stored interval of the
    /// virtual map that may be written, in ascending order of the intervals.
    pub fn get_writable_ranges(&self) -> (r: Vec<&MemRange>)
        requires
            self.wf(),
        ensures
            derefs(r@) == self.writable_sections(),
    {
        let all = self.get_mem_ranges();
        let mut res: Vec<&MemRange> = Vec::new();
        let mut i: usize = 0;
        assert(derefs(all@) =~= self.interval_sections());
        assert(derefs(all@).subrange(0, 0) =~= Seq::<MemRange>::empty());
        assert(derefs(res@) =~= Seq::<MemRange>::empty());
        while i < all.len()
            invariant
                i <= all@.len(),
                derefs(res@) == keep_writable(derefs(all@).subrange(0, i as int)),
            decreases all@.len() - i,
        {
            let mr: &MemRange = all[i];
            let ghost before = derefs(res@);
            assert(derefs(all@).subrange(0, i + 1).drop_last() =~= derefs(all@).subrange(
                0,
                i as int,
            ));
            if mr.is_writable() {
                res.push(mr);
                assert(derefs(res@) =~= before.push(*mr));
            }
            i += 1;
        }
        assert(derefs(all@).subrange(0, all@.len() as int) =~= derefs(all@));
        res
    }

    /// Every stored interval of the virtual map belongs to a section that was
    /// entered, and lies within the addresses that the section claims.
    pub proof fn lemma_v_intervals(&self)
        requires
            self.wf(),
        ensures
            forall|i: int|
                0 <= i < self.v_intervals().len() ==> {
                    let e = #[trigger] self.v_intervals()[i];
                    &&& e.2 < self.sections().len()
                    &&& self.sections()[e.2 as int].vaddr_start <= e.0
                    &&& e.1 <= self.sections()[e.2 as int].vaddr_start + span(
                        self.sections()[e.2 as int].vsize,
                    )
                },
    {
        let es = self.v_intervals();
        assert forall|i: int| 0 <= i < es.len() implies {
            let e = #[trigger] es[i];
            &&& e.2 < self.sections().len()
            &&& self.sections()[e.2 as int].vaddr_start <= e.0
            &&& e.1 <= self.sections()[e.2 as int].vaddr_start + span(
                self.sections()[e.2 as int].vsize,
            )
        } by {
            let e = es[i];
            let last: u64 = (e.1 - 1) as u64;
            lemma_interval_value(es, i, e.0);
            lemma_interval_value(es, i, last);
            lemma_v_owner(self.sections(), e.0);
            lemma_v_owner(self.sections(), last);
            assert(lookup(es, e.0) == v_owner(self.sections(), e.0));
            assert(lookup(es, last) == v_owner(self.sections(), last));
        }
    }

    /// Where no two sections claim a common virtual address, no section has
    /// two stored intervals.
    pub proof fn lemma_one_interval_each(&self, i: int, j: int)
        requires
            self.wf(),
            self.disjoint_v(),
            0 <= i < j < self.v_intervals().len(),
        ensures
            self.v_intervals()[i].2 != self.v_intervals()[j].2,
    {
        let e = self.v_intervals();
        let secs = self.sections();
        self.lemma_v_intervals();
        if e[i].2 == e[j].2 {
            let a = e[i].2 as int;
            let x: u64 = e[i].1;
            assert(e[i].1 <= e[j].0);
            assert(e[i].0 < e[i].1);
            assert(e[j].0 < e[j].1);
            assert(secs[a].claims_vaddr(x));
            self.lemma_disjoint_owner(a, x);
            assert(lookup(e, x) == v_owner(secs, x));
            let k = choose|k: int| interval_holds(e, k, x);
            lemma_interval_value(e, k, x);
            if k < i {
                assert(e[k].1 <= e[i].0);
            } else if k > i + 1 {
                assert(e[i + 1].1 <= e[k].0);
                assert(e[i].1 <= e[i + 1].0);
                assert(e[i + 1].0 < e[i + 1].1);
            } else {
                assert(e[i].1 <= e[i + 1].0);
            }
        }
    }

    /// The regions come in the order of their first addresses: where no two
    /// sections claim a common virtual address, the sections of the stored
    /// intervals begin at strictly ascending addresses.
    pub proof fn lemma_sections_ascend(&self, i: int, j: int)
        requires
            self.wf(),
            self.disjoint_v(),
            0 <= i < j < self.interval_sections().len(),
        ensures
            self.interval_sections()[i].vaddr_start < self.interval_sections()[j].vaddr_start,
    {
        let e = self.v_intervals();
        let secs = self.sections();
        self.lemma_v_intervals();
        self.lemma_one_interval_each(i, j);
        let a = e[i].2 as int;
        let b = e[j].2 as int;
        assert(e[i].1 <= e[j].0);
        assert(e[i].0 < e[i].1);
        assert(e[j].0 < e[j].1);
        if secs[b].vaddr_start <= secs[a].vaddr_start {
            let x = secs[a].vaddr_start;
            assert(secs[a].claims_vaddr(x));
            assert(secs[b].claims_vaddr(x));
            if a < b {
                assert(secs[a].claims_vaddr(x) && secs[b].claims_vaddr(x));
            } else {
                assert(secs[b].claims_vaddr(x) && secs[a].claims_vaddr(x));
            }
        }
    }

    /// The writable regions come in the order of their first addresses, where
    /// no two sections claim a common virtual address.
    pub proof fn lemma_writable_sections_ascend(&self)
        requires
            self.wf(),
            self.disjoint_v(),
        ensures
            forall|i: int, j: int|
                0 <= i < j < self.writable_sections().len() ==> self.writable_sections()[i].vaddr_start
                    < self.writable_sections()[j].vaddr_start,
    {
        let all = self.interval_sections();
        assert forall|i: int, j: int| 0 <= i < j < all.len() implies all[i].vaddr_start
            < all[j].vaddr_start by {
            self.lemma_sections_ascend(i, j);
        }
        lemma_keep_writable_ascends(all);
    }

    /// The section of each stored interval of the virtual map, in ascending
    /// order of the intervals.
    pub fn get_mem_ranges(&self) -> (r: Vec<&MemRange>)
        requires
            self.wf(),
        ensures
            r@.len() == self.v_intervals().len(),
            forall|i: int|
                0 <= i < r@.len() ==> *(#[trigger] r@[i]) == self.sections()[self.v_intervals()[i].2 as int],
    {
        let list = intervals_list(&self.vmem_ranges);
        let mut res: Vec<&MemRange> = Vec::new();
        let mut i: usize = 0;
        proof {
            self.lemma_v_intervals();
        }
        while i < list.len()
            invariant
                list@ == self.v_intervals(),
                i <= list@.len(),
                res@.len() == i,
                forall|j: int| 0 <= j < list@.len() ==> (#[trigger] list@[j]).2 < self.sections@.len(),
                forall|j: int|
                    0 <= j < i ==> *(#[trigger] res@[j]) == self.sections()[list@[j].2 as int],
            decreases list@.len() - i,
        {
            let (_start, _end, idx) = list[i];
            res.push(&self.sections[idx]);
            i += 1;
        }
        res
    }
}

/// In canonical intervals an address has the value of the interval that
/// holds it.
pub proof fn lemma_interval_value(e: Seq<Interval>, i: int, k: u64)
    requires
        canonical(e),
        interval_holds(e, i, k),
    ensures
        lookup(e, k) == Some(e[i].2 as int),
{
    let j = choose|j: int| interval_holds(e, j, k);
    if j < i {
        assert(e[j].1 <= e[i].0);
    } else if i < j {
        assert(e[i].1 <= e[j].0);
    }
}

} // verus!
