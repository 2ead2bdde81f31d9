//! Whole scans of an address space: the block scan over the dump and over
//! each writable region, the pointer scan and the page-header scan.

use crate::data_interface::DataInterface;
use crate::luapage::LuaPageSearch;
use crate::memory::MemRange;
use crate::pointer::PointerSearch;
use crate::regexblock::{
    are_placed_records, blocks, is_block_record, is_valid_pattern, regex_compiles,
    RegexBlockSearch, SearchError, Setting,
};
use crate::search::SearchResult;
use vstd::prelude::*;

verus! {

/// The setting of a block scan over the whole dump, before the blocks are
/// placed: both bases zero, no section name.
pub open spec fn dump_setting(sp: Seq<char>, ep: Seq<char>) -> Setting {
    Setting { sp, ep, base_v: 0, base_p: 0, name: Seq::empty() }
}

/// The setting of a block scan over the section `s`: the bases and the name
/// of the section.
pub open spec fn section_setting(sp: Seq<char>, ep: Seq<char>, s: MemRange) -> Setting {
    Setting {
        sp,
        ep,
        base_v: s.vaddr_start as int,
        base_p: s.paddr_start as int,
        name: s.name@,
    }
}

/// The blocks of the section of the virtual address `svaddr`: those that a
/// scan of its addressable bytes finds. None where the address has no
/// section or the dump does not hold the section's bytes.
pub open spec fn region_blocks(di: DataInterface, sp: Seq<char>, ep: Seq<char>, svaddr: u64) -> Seq<
    (int, int),
> {
    match di.section_of_v(svaddr) {
        Some(s) => match di.section_bytes(s) {
            Some(bytes) => blocks(sp, ep, bytes, 0, bytes.len() as int),
            None => Seq::empty(),
        },
        None => Seq::empty(),
    }
}

/// The blocks of the regions `regions`, region after region, each with the
/// first address of its region.
pub open spec fn tagged_blocks(
    di: DataInterface,
    sp: Seq<char>,
    ep: Seq<char>,
    regions: Seq<MemRange>,
) -> Seq<((int, int), u64)>
    decreases regions.len(),
{
    if regions.len() == 0 {
        Seq::empty()
    } else {
        tagged_blocks(di, sp, ep, regions.drop_last()) + region_blocks(
            di,
            sp,
            ep,
            regions.last().vaddr_start,
        ).map_values(|b: (int, int)| (b, regions.last().vaddr_start))
    }
}

/// Whether `r` is the record of the block `b` of the section of the virtual
/// address `svaddr`: its addresses are offset by the section's bases, and it
/// has the section's name.
pub open spec fn is_region_record(
    r: SearchResult,
    di: DataInterface,
    sp: Seq<char>,
    ep: Seq<char>,
    b: (int, int),
    svaddr: u64,
) -> bool {
    match di.section_of_v(svaddr) {
        Some(s) => match di.section_bytes(s) {
            Some(bytes) => is_block_record(r, b, bytes, section_setting(sp, ep, s)),
            None => false,
        },
        None => false,
    }
}

/// A scan that finds no writable region reports nothing.
pub proof fn lemma_no_region_no_block(di: DataInterface, sp: Seq<char>, ep: Seq<char>)
    requires
        di.ranges().writable_sections().len() == 0,
    ensures
        tagged_blocks(di, sp, ep, di.ranges().writable_sections()).len() == 0,
{
}

/// Scans the whole dump for blocks between the two patterns; each block gets
/// the virtual address and the section name that the address space gives its
/// offset in the dump. No record where no dump is loaded; no scan where a
/// pattern does not compile.
pub fn search_regex_all(spattern: &String, epattern: &String, di: &DataInterface) -> (r: Result<
    Vec<SearchResult>,
    SearchError,
>)
    requires
        di.wf(),
    ensures
        r is Err <==> !(regex_compiles(spattern@) && regex_compiles(epattern@)),
        r matches Err(e) ==> e == SearchError::InvalidPattern,
        r matches Ok(rs) ==> if di.loaded() {
            are_placed_records(
                rs@,
                blocks(spattern@, epattern@, di.dump(), 0, di.dump().len() as int),
                di.dump(),
                dump_setting(spattern@, epattern@),
                Some(*di),
            )
        } else {
            rs@.len() == 0
        },
{
    if !is_valid_pattern(spattern.as_str()) || !is_valid_pattern(epattern.as_str()) {
        return Err(SearchError::InvalidPattern);
    }
    let mut search_results: Vec<SearchResult> = Vec::new();
    let ro_buf: &[u8] = match di.get_buffer().get_shared_buffer() {
        Some(b) => b,
        None => {
            return Ok(search_results);
        },
    };
    let mut search = RegexBlockSearch::new(spattern, epattern, None, None, None, Some(0), Some(0));
    let name = String::new();
    assert(ro_buf.len() == ro_buf@.len());
    search.perform_search_section(ro_buf, 0, 0, &name, Some(di), &mut search_results);
    assert(search_results@.subrange(0, search_results@.len() as int) =~= search_results@);
    Ok(search_results)
}

/// Scans every writable region for blocks between the two patterns, region
/// after region in the order of `get_writable_ranges`; a block does not pass
/// the end of its region. No record where no dump is loaded; no scan where a
/// pattern does not compile.
pub fn search_regex_ranges(spattern: &String, epattern: &String, di: &DataInterface) -> (r: Result<
    Vec<SearchResult>,
    SearchError,
>)
    requires
        di.wf(),
    ensures
        r is Err <==> !(regex_compiles(spattern@) && regex_compiles(epattern@)),
        r matches Err(e) ==> e == SearchError::InvalidPattern,
        r matches Ok(rs) ==> {
            let t = tagged_blocks(*di, spattern@, epattern@, di.ranges().writable_sections());
            &&& rs@.len() == t.len()
            &&& forall|i: int|
                0 <= i < t.len() ==> is_region_record(
                    #[trigger] rs@[i],
                    *di,
                    spattern@,
                    epattern@,
                    t[i].0,
                    t[i].1,
                )
        },
{
    if !is_valid_pattern(spattern.as_str()) || !is_valid_pattern(epattern.as_str()) {
        return Err(SearchError::InvalidPattern);
    }
    let mut search_results: Vec<SearchResult> = Vec::new();
    let regions = di.get_mem_ranges().get_writable_ranges();
    let ghost all = crate::memory::derefs(regions@);
    let ghost sp = spattern@;
    let ghost ep = epattern@;
    let mut k: usize = 0;
    proof {
        assert(all.subrange(0, 0) =~= Seq::<MemRange>::empty());
    }
    while k < regions.len()
        invariant
            di.wf(),
            k <= regions@.len(),
            sp == spattern@,
            ep == epattern@,
            regex_compiles(sp),
            regex_compiles(ep),
            all == crate::memory::derefs(regions@),
            search_results@.len() == tagged_blocks(*di, sp, ep, all.subrange(0, k as int)).len(),
            forall|i: int|
                0 <= i < search_results@.len() ==> is_region_record(
                    #[trigger] search_results@[i],
                    *di,
                    sp,
                    ep,
                    tagged_blocks(*di, sp, ep, all.subrange(0, k as int))[i].0,
                    tagged_blocks(*di, sp, ep, all.subrange(0, k as int))[i].1,
                ),
        decreases regions@.len() - k,
    {
        let mr: &MemRange = regions[k];
        let ghost before = search_results@;
        let ghost t1 = tagged_blocks(*di, sp, ep, all.subrange(0, k + 1));
        proof {
            assert(all.subrange(0, k + 1).drop_last() =~= all.subrange(0, k as int));
            assert(all.subrange(0, k + 1).last() == *mr);
        }
        match di.get_mem_ranges().get_vaddr_range(mr.vaddr_start) {
            Some(s) => {
                match di.shared_buffer_vaddr(mr.vaddr_start) {
                    Some(bytes) => {
                        proof {
                            crate::memory::lemma_v_owner(
                                di.ranges().sections(),
                                mr.vaddr_start,
                            );
                        }
                        let mut search = RegexBlockSearch::new(
                            spattern,
                            epattern,
                            None,
                            None,
                            None,
                            Some(s.vaddr_start),
                            Some(s.paddr_start),
                        );
                        search.perform_search_section(
                            bytes,
                            s.vaddr_start,
                            s.paddr_start,
                            &s.name,
                            None,
                            &mut search_results,
                        );
                        proof {
                            let found = region_blocks(*di, sp, ep, mr.vaddr_start);
                            let tail = search_results@.subrange(
                                before.len() as int,
                                search_results@.len() as int,
                            );
                            assert forall|i: int| 0 <= i < search_results@.len() implies is_region_record(
                                #[trigger] search_results@[i],
                                *di,
                                sp,
                                ep,
                                t1[i].0,
                                t1[i].1,
                            ) by {
                                if i < before.len() {
                                    assert(search_results@[i] == search_results@.subrange(
                                        0,
                                        before.len() as int,
                                    )[i]);
                                } else {
                                    assert(search_results@[i] == tail[i - before.len()]);
                                    assert(t1[i].0 == found[i - before.len()]);
                                }
                            }
                        }
                    },
                    None => {},
                }
            },
            None => {},
        }
        k += 1;
    }
    proof {
        assert(all.subrange(0, regions@.len() as int) =~= all);
    }
    Ok(search_results)
}

/// The pointer scan of every writable region, as `ps` makes it.
pub fn search_for_pointers(pointer_search: &mut PointerSearch, di: &DataInterface) -> (r: Vec<
    SearchResult,
>)
    requires
        di.wf(),
    ensures
        ({
            let t = crate::pointer::tagged_findings(*di, di.ranges().writable_sections());
            &&& final(pointer_search).has_noted(
                old(pointer_search),
                *di,
                crate::pointer::untagged(t),
            )
            &&& r@.len() == t.len()
            &&& forall|i: int|
                0 <= i < t.len() ==> crate::pointer::is_record_of(
                    #[trigger] r@[i],
                    t[i].0,
                    t[i].1,
                    crate::pointer::stride(*di),
                )
        }),
{
    pointer_search.perform_search_with_interface(di)
}

/// The page-header scan of every writable region, as `lp_search` makes it.
pub fn search_for_luapages(lp_search: &mut LuaPageSearch, di: &DataInterface) -> (r: Vec<
    SearchResult,
>)
    requires
        di.wf(),
    ensures
        ({
            let t = crate::luapage::tagged_pages(
                *di,
                di.ranges().writable_sections(),
                old(lp_search).max_block_size,
            );
            &&& final(lp_search).has_noted(old(lp_search), crate::luapage::untagged(t))
            &&& r@.len() == t.len()
            &&& forall|i: int|
                0 <= i < t.len() ==> crate::luapage::is_record_of(
                    #[trigger] r@[i],
                    t[i].0,
                    t[i].1,
                    crate::luapage::header_size(*di),
                )
        }),
{
    lp_search.perform_search_with_interface(di)
}

} // verus!
